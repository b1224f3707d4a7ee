//! Bucket identity — the canonical names of the per-entity sync buckets, and the
//! `tracks` shard function.
//!
//! These plain names are the manifest map keys, the dirty-queue values, and the
//! storage object names `users/{uid}/vault/{bucket}-{blake3}.jsonl.gz`.
use vstd::prelude::*;
use crate::hex::{hex_char_value, hex_char_value_exec, hex_digit};
use crate::text::{chars_of, push_char, push_str, range_eq_str, str_eq, to_owned_string};

verus! {

/// Number of hash-shards the `tracks` bucket is split into.
pub const TRACK_SHARDS: usize = 16;

/// How a bucket merges. Drives the delete-vs-live tie-break, which must be the same at
/// serialize time and merge time.
#[derive(Debug, Clone, Copy, PartialEq, Eq, Structural)]
pub enum BucketKind {
    /// Single-PK entity. A delete at an HLC `>=` the live row wins the tie.
    Entity,
    /// Composite-PK junction. A delete wins only if strictly `>` the add.
    Junction,
    /// `settings` key/value with a per-key HLC. Last writer wins, never deleted.
    Settings,
}

/// A logical sync bucket: one content-addressed blob in the vault. The `tracks` table is
/// split into 16 shards (`Tracks(0)`..`Tracks(15)` → `"tracks/0"`..`"tracks/f"`).
#[derive(Debug, Clone, Copy, PartialEq, Eq, Hash, Structural)]
pub enum Bucket {
    /// Track shard; the `u8` is the nibble 0..16 (not the hex character).
    Tracks(u8),
    Playlists,
    PlaylistTracks,
    Cues,
    TagCategories,
    Tags,
    TrackTags,
    DiscoveryReleases,
    DiscoveryTracks,
    DiscoveryReleaseTags,
    PlaylistDiscoveryReleases,
    LibraryRoots,
    Settings,
}

/// `n` in lowercase hex without leading zeros (`{n:x}`).
pub open spec fn hex_min(n: nat) -> Seq<char>
    decreases n,
{
    if n < 16 {
        seq![hex_digit(n)]
    } else {
        hex_min(n / 16).push(hex_digit(n % 16))
    }
}

/// A bucket whose shard number is in range.
pub open spec fn bucket_valid(b: Bucket) -> bool {
    b matches Bucket::Tracks(n) ==> n < 16
}

/// The canonical plain name of a bucket.
pub open spec fn bucket_name(b: Bucket) -> Seq<char> {
    match b {
        Bucket::Tracks(n) => "tracks/"@ + hex_min(n as nat),
        Bucket::Playlists => "playlists"@,
        Bucket::PlaylistTracks => "playlist_tracks"@,
        Bucket::Cues => "cues"@,
        Bucket::TagCategories => "tag_categories"@,
        Bucket::Tags => "tags"@,
        Bucket::TrackTags => "track_tags"@,
        Bucket::DiscoveryReleases => "discovery_releases"@,
        Bucket::DiscoveryTracks => "discovery_tracks"@,
        Bucket::DiscoveryReleaseTags => "discovery_release_tags"@,
        Bucket::PlaylistDiscoveryReleases => "playlist_discovery_releases"@,
        Bucket::LibraryRoots => "library_roots"@,
        Bucket::Settings => "settings"@,
    }
}

/// What [`Bucket::parse`] accepts.
pub open spec fn bucket_parse_spec(s: Seq<char>) -> Option<Bucket> {
    if s.len() >= 7 && s.subrange(0, 7) == "tracks/"@ {
        if s.len() == 8 && hex_char_value(s[7]) is Some {
            Some(Bucket::Tracks(hex_char_value(s[7]).unwrap() as u8))
        } else {
            None
        }
    } else if s == "playlists"@ {
        Some(Bucket::Playlists)
    } else if s == "playlist_tracks"@ {
        Some(Bucket::PlaylistTracks)
    } else if s == "cues"@ {
        Some(Bucket::Cues)
    } else if s == "tag_categories"@ {
        Some(Bucket::TagCategories)
    } else if s == "tags"@ {
        Some(Bucket::Tags)
    } else if s == "track_tags"@ {
        Some(Bucket::TrackTags)
    } else if s == "discovery_releases"@ {
        Some(Bucket::DiscoveryReleases)
    } else if s == "discovery_tracks"@ {
        Some(Bucket::DiscoveryTracks)
    } else if s == "discovery_release_tags"@ {
        Some(Bucket::DiscoveryReleaseTags)
    } else if s == "playlist_discovery_releases"@ {
        Some(Bucket::PlaylistDiscoveryReleases)
    } else if s == "library_roots"@ {
        Some(Bucket::LibraryRoots)
    } else if s == "settings"@ {
        Some(Bucket::Settings)
    } else {
        None
    }
}

pub open spec fn bucket_kind(b: Bucket) -> BucketKind {
    match b {
        Bucket::PlaylistTracks | Bucket::TrackTags | Bucket::DiscoveryReleaseTags
        | Bucket::PlaylistDiscoveryReleases => BucketKind::Junction,
        Bucket::Settings => BucketKind::Settings,
        _ => BucketKind::Entity,
    }
}

/// The SQL table backing a bucket (all track shards share `tracks`).
pub open spec fn bucket_table(b: Bucket) -> Seq<char> {
    match b {
        Bucket::Tracks(_) => "tracks"@,
        _ => bucket_name(b),
    }
}

/// The tombstone entity type of a bucket: every track shard maps to `tracks`.
pub open spec fn bucket_entity_type(b: Bucket) -> Seq<char> {
    bucket_table(b)
}

/// The lowercase first character of a track id, kept only when it is a hex digit.
pub open spec fn shard_char(id: Seq<char>) -> char {
    if id.len() > 0 {
        let c = id[0];
        let l = if 65 <= (c as u32) <= 90 { ((c as u32) + 32) as char } else { c };
        if hex_char_value(l) is Some { l } else { '0' }
    } else {
        '0'
    }
}

/// The shard nibble of a track id: the first character's hex value, else 0.
pub open spec fn shard_spec(id: Seq<char>) -> u8 {
    if id.len() > 0 && hex_char_value(id[0]) is Some {
        hex_char_value(id[0]).unwrap() as u8
    } else {
        0
    }
}

/// Every bucket in the stable serialization order: 16 track shards then the rest.
pub open spec fn all_buckets() -> Seq<Bucket> {
    Seq::new(16, |i: int| Bucket::Tracks(i as u8)) + seq![
        Bucket::Playlists,
        Bucket::PlaylistTracks,
        Bucket::Cues,
        Bucket::TagCategories,
        Bucket::Tags,
        Bucket::TrackTags,
        Bucket::DiscoveryReleases,
        Bucket::DiscoveryTracks,
        Bucket::DiscoveryReleaseTags,
        Bucket::PlaylistDiscoveryReleases,
        Bucket::LibraryRoots,
        Bucket::Settings,
    ]
}

/// Parents before children.
pub open spec fn merge_order_spec() -> Seq<Bucket> {
    seq![Bucket::TagCategories, Bucket::LibraryRoots, Bucket::DiscoveryReleases] + Seq::new(
        16,
        |i: int| Bucket::Tracks(i as u8),
    ) + seq![
        Bucket::Tags,
        Bucket::Playlists,
        Bucket::DiscoveryTracks,
        Bucket::Cues,
        Bucket::TrackTags,
        Bucket::PlaylistTracks,
        Bucket::DiscoveryReleaseTags,
        Bucket::PlaylistDiscoveryReleases,
        Bucket::Settings,
    ]
}

} // verus!

verus! {

fn push_hex_min(out: &mut String, n: u8)
    ensures
        final(out)@ == old(out)@ + hex_min(n as nat),
    decreases n,
{
    if n < 16 {
        let c = hex_digit_char(n);
        push_char(out, c);
        assert(old(out)@.push(c) == old(out)@ + seq![c]);
    } else {
        push_hex_min(out, n / 16);
        let c = hex_digit_char(n % 16);
        push_char(out, c);
        assert(old(out)@ + hex_min(n as nat / 16).push(c) == (old(out)@ + hex_min(n as nat / 16)).push(c));
    }
}

fn hex_digit_char(n: u8) -> (c: char)
    requires
        n < 16,
    ensures
        c == hex_digit(n as nat),
{
    if n < 10 {
        (48 + n) as char
    } else {
        (87 + n) as char
    }
}

/// Canonical bucket name for a track id, e.g. `"tracks/3"`: the first character of the
/// id (lowercased) when it is a hex digit, else `0`.
pub fn bucket_for_track_id(id: &str) -> (s: String)
    ensures
        s@ == "tracks/"@ + seq![shard_char(id@)],
{
    let mut s = to_owned_string("tracks/");
    let mut c = '0';
    if id.unicode_len() > 0 {
        let first = id.get_char(0);
        let n = first as u32;
        let l = if 65 <= n && n <= 90 { ((n + 32) as u8) as char } else { first };
        if hex_char_value_exec(l).is_some() {
            c = l;
        }
    }
    push_char(&mut s, c);
    assert(s@ == "tracks/"@.push(c));
    s
}

/// The nibble (0..16) a track id shards into — the payload of [`Bucket::Tracks`].
pub fn shard_for_track_id(id: &str) -> (n: u8)
    ensures
        n == shard_spec(id@),
        n < 16,
{
    if id.unicode_len() > 0 {
        match hex_char_value_exec(id.get_char(0)) {
            Some(v) => v as u8,
            None => 0,
        }
    } else {
        0
    }
}

impl Bucket {
    /// The bucket for a given track id (its shard).
    pub fn for_track_id(id: &str) -> (b: Bucket)
        ensures
            b == Bucket::Tracks(shard_spec(id@)),
    {
        Bucket::Tracks(shard_for_track_id(id))
    }

    /// Canonical plain name — the manifest map key / dirty-queue value.
    pub fn as_str(&self) -> (s: String)
        ensures
            s@ == bucket_name(*self),
    {
        match self {
            Bucket::Tracks(n) => {
                let mut s = to_owned_string("tracks/");
                push_hex_min(&mut s, *n);
                s
            },
            Bucket::Playlists => to_owned_string("playlists"),
            Bucket::PlaylistTracks => to_owned_string("playlist_tracks"),
            Bucket::Cues => to_owned_string("cues"),
            Bucket::TagCategories => to_owned_string("tag_categories"),
            Bucket::Tags => to_owned_string("tags"),
            Bucket::TrackTags => to_owned_string("track_tags"),
            Bucket::DiscoveryReleases => to_owned_string("discovery_releases"),
            Bucket::DiscoveryTracks => to_owned_string("discovery_tracks"),
            Bucket::DiscoveryReleaseTags => to_owned_string("discovery_release_tags"),
            Bucket::PlaylistDiscoveryReleases => to_owned_string("playlist_discovery_releases"),
            Bucket::LibraryRoots => to_owned_string("library_roots"),
            Bucket::Settings => to_owned_string("settings"),
        }
    }

    /// Parse a plain bucket name. `"tracks/a"` → `Tracks(10)`; rejects `"tracks/ab"`.
    pub fn parse(s: &str) -> (r: Option<Bucket>)
        ensures
            r == bucket_parse_spec(s@),
    {
        let v = chars_of(s);
        if v.len() >= 7 && range_eq_str(&v, 0, 7, "tracks/") {
            if v.len() != 8 {
                return None;
            }
            return match hex_char_value_exec(v[7]) {
                Some(d) => Some(Bucket::Tracks(d as u8)),
                None => None,
            };
        }
        if str_eq(s, "playlists") {
            Some(Bucket::Playlists)
        } else if str_eq(s, "playlist_tracks") {
            Some(Bucket::PlaylistTracks)
        } else if str_eq(s, "cues") {
            Some(Bucket::Cues)
        } else if str_eq(s, "tag_categories") {
            Some(Bucket::TagCategories)
        } else if str_eq(s, "tags") {
            Some(Bucket::Tags)
        } else if str_eq(s, "track_tags") {
            Some(Bucket::TrackTags)
        } else if str_eq(s, "discovery_releases") {
            Some(Bucket::DiscoveryReleases)
        } else if str_eq(s, "discovery_tracks") {
            Some(Bucket::DiscoveryTracks)
        } else if str_eq(s, "discovery_release_tags") {
            Some(Bucket::DiscoveryReleaseTags)
        } else if str_eq(s, "playlist_discovery_releases") {
            Some(Bucket::PlaylistDiscoveryReleases)
        } else if str_eq(s, "library_roots") {
            Some(Bucket::LibraryRoots)
        } else if str_eq(s, "settings") {
            Some(Bucket::Settings)
        } else {
            None
        }
    }

    /// Every bucket, in a stable deterministic order (16 track shards then the rest).
    pub fn all() -> (v: Vec<Bucket>)
        ensures
            v@ == all_buckets(),
    {
        let mut v: Vec<Bucket> = Vec::new();
        let mut i: u8 = 0;
        while i < 16
            invariant
                i <= 16,
                v@ == Seq::new(i as nat, |k: int| Bucket::Tracks(k as u8)),
            decreases 16 - i,
        {
            v.push(Bucket::Tracks(i));
            assert(v@ =~= Seq::new((i + 1) as nat, |k: int| Bucket::Tracks(k as u8)));
            i = i + 1;
        }
        v.push(Bucket::Playlists);
        v.push(Bucket::PlaylistTracks);
        v.push(Bucket::Cues);
        v.push(Bucket::TagCategories);
        v.push(Bucket::Tags);
        v.push(Bucket::TrackTags);
        v.push(Bucket::DiscoveryReleases);
        v.push(Bucket::DiscoveryTracks);
        v.push(Bucket::DiscoveryReleaseTags);
        v.push(Bucket::PlaylistDiscoveryReleases);
        v.push(Bucket::LibraryRoots);
        v.push(Bucket::Settings);
        assert(v@ =~= all_buckets());
        v
    }

    /// Merge/apply order: parents before children, so a junction's endpoints already
    /// exist when it is applied.
    pub fn merge_order() -> (v: Vec<Bucket>)
        ensures
            v@ == merge_order_spec(),
    {
        let mut v: Vec<Bucket> = Vec::new();
        v.push(Bucket::TagCategories);
        v.push(Bucket::LibraryRoots);
        v.push(Bucket::DiscoveryReleases);
        let ghost head = v@;
        let mut i: u8 = 0;
        while i < 16
            invariant
                i <= 16,
                head == seq![Bucket::TagCategories, Bucket::LibraryRoots, Bucket::DiscoveryReleases],
                v@ == head + Seq::new(i as nat, |k: int| Bucket::Tracks(k as u8)),
            decreases 16 - i,
        {
            v.push(Bucket::Tracks(i));
            assert(v@ =~= head + Seq::new((i + 1) as nat, |k: int| Bucket::Tracks(k as u8)));
            i = i + 1;
        }
        v.push(Bucket::Tags);
        v.push(Bucket::Playlists);
        v.push(Bucket::DiscoveryTracks);
        v.push(Bucket::Cues);
        v.push(Bucket::TrackTags);
        v.push(Bucket::PlaylistTracks);
        v.push(Bucket::DiscoveryReleaseTags);
        v.push(Bucket::PlaylistDiscoveryReleases);
        v.push(Bucket::Settings);
        assert(v@ =~= merge_order_spec());
        v
    }

    pub fn kind(&self) -> (k: BucketKind)
        ensures
            k == bucket_kind(*self),
    {
        match self {
            Bucket::PlaylistTracks | Bucket::TrackTags | Bucket::DiscoveryReleaseTags
            | Bucket::PlaylistDiscoveryReleases => BucketKind::Junction,
            Bucket::Settings => BucketKind::Settings,
            _ => BucketKind::Entity,
        }
    }

    /// The SQL table backing this bucket. All `Tracks(_)` shards share `"tracks"`.
    pub fn table(&self) -> (t: &'static str)
        ensures
            t@ == bucket_table(*self),
    {
        match self {
            Bucket::Tracks(_) => "tracks",
            Bucket::Playlists => "playlists",
            Bucket::PlaylistTracks => "playlist_tracks",
            Bucket::Cues => "cues",
            Bucket::TagCategories => "tag_categories",
            Bucket::Tags => "tags",
            Bucket::TrackTags => "track_tags",
            Bucket::DiscoveryReleases => "discovery_releases",
            Bucket::DiscoveryTracks => "discovery_tracks",
            Bucket::DiscoveryReleaseTags => "discovery_release_tags",
            Bucket::PlaylistDiscoveryReleases => "playlist_discovery_releases",
            Bucket::LibraryRoots => "library_roots",
            Bucket::Settings => "settings",
        }
    }

    /// The tombstone entity type for this bucket. Every track shard maps to `"tracks"`,
    /// never to `"tracks/3"`.
    pub fn entity_type(&self) -> (t: &'static str)
        ensures
            t@ == bucket_entity_type(*self),
    {
        self.table()
    }

    /// The display-label column (`name`/`title`) used to name an entity in an override
    /// notice.
    pub fn label_column(&self) -> (c: &'static str)
        ensures
            c@ == (if (*self matches Bucket::Tracks(_)) || *self == Bucket::DiscoveryReleases {
                "title"@
            } else {
                "name"@
            }),
    {
        match self {
            Bucket::Tracks(_) | Bucket::DiscoveryReleases => "title",
            _ => "name",
        }
    }

    /// PK column names in declaration order: one for entities, two for junctions (in the
    /// `a|b` order of a junction id), and `["key"]` for settings.
    pub fn pk_columns(&self) -> (cols: Vec<&'static str>)
        ensures
            cols@.map_values(|c: &'static str| c@) == pk_columns_spec(*self),
    {
        let mut v: Vec<&'static str> = Vec::new();
        match self {
            Bucket::PlaylistTracks => {
                v.push("playlist_id");
                v.push("track_id");
            },
            Bucket::TrackTags => {
                v.push("track_id");
                v.push("tag_id");
            },
            Bucket::DiscoveryReleaseTags => {
                v.push("release_id");
                v.push("tag_id");
            },
            Bucket::PlaylistDiscoveryReleases => {
                v.push("playlist_id");
                v.push("release_id");
            },
            Bucket::Settings => {
                v.push("key");
            },
            _ => {
                v.push("id");
            },
        }
        assert(v@.map_values(|c: &'static str| c@) =~= pk_columns_spec(*self));
        v
    }
}

pub open spec fn pk_columns_spec(b: Bucket) -> Seq<Seq<char>> {
    match b {
        Bucket::PlaylistTracks => seq!["playlist_id"@, "track_id"@],
        Bucket::TrackTags => seq!["track_id"@, "tag_id"@],
        Bucket::DiscoveryReleaseTags => seq!["release_id"@, "tag_id"@],
        Bucket::PlaylistDiscoveryReleases => seq!["playlist_id"@, "release_id"@],
        Bucket::Settings => seq!["key"@],
        _ => seq!["id"@],
    }
}

} // verus!

verus! {

/// Law: parsing the canonical name of a bucket gives the bucket back.
pub proof fn lemma_parse_name(b: Bucket)
    requires
        bucket_valid(b),
    ensures
        bucket_parse_spec(bucket_name(b)) == Some(b),
{
    reveal_strlit("tracks/");
    reveal_strlit("playlists");
    reveal_strlit("playlist_tracks");
    reveal_strlit("cues");
    reveal_strlit("tag_categories");
    reveal_strlit("tags");
    reveal_strlit("track_tags");
    reveal_strlit("discovery_releases");
    reveal_strlit("discovery_tracks");
    reveal_strlit("discovery_release_tags");
    reveal_strlit("playlist_discovery_releases");
    reveal_strlit("library_roots");
    reveal_strlit("settings");
    if let Bucket::Tracks(n) = b {
        assert(hex_min(n as nat) == seq![hex_digit(n as nat)]);
    }
    match b {
        Bucket::Tracks(n) => {
            let s = bucket_name(b);
            assert(s.subrange(0, 7) =~= "tracks/"@);
            assert(s[7] == hex_digit(n as nat));
            crate::hex::lemma_hex_digit_code_pub(n as nat);
            assert(s.len() == 8);
            assert(hex_char_value(s[7]) == Some(n as nat));
            assert((n as nat) as u8 == n);
            assert(s.subrange(0, 7) == "tracks/"@);
            assert(bucket_parse_spec(s) == Some(Bucket::Tracks(n)));
        },
        _ => {
            let s = bucket_name(b);
            if b == Bucket::Tags {
                assert(s[0] != "cues"@[0]);
            }
            if b == Bucket::DiscoveryReleases {
                assert(s[0] == 'd');
                assert(s != "playlists"@ && s != "playlist_tracks"@ && s != "cues"@ && s != "tag_categories"@);
                assert(s != "tags"@ && s != "track_tags"@);
            }
            assert(!(s.len() >= 7 && s.subrange(0, 7) == "tracks/"@)) by {
                if s.len() >= 7 && s.subrange(0, 7) == "tracks/"@ {
                    assert(s.subrange(0, 7)[6] == '/');
                    assert(s[6] == '/');
                }
            }
            assert(bucket_parse_spec(s) == Some(b));
        },
    }
}

/// Law: whatever `parse` accepts is a valid bucket.
pub proof fn lemma_parse_valid(s: Seq<char>)
    ensures
        bucket_parse_spec(s) matches Some(b) ==> bucket_valid(b),
{
}

/// Law: the string shard and the enum shard of a track id never disagree.
pub proof fn lemma_shard_agrees(id: Seq<char>)
    ensures
        bucket_name(Bucket::Tracks(shard_spec(id))) == "tracks/"@ + seq![shard_char(id)],
        shard_spec(id) < 16,
{
    if id.len() > 0 {
        let c = id[0];
        crate::text::lemma_char_code_injective(c, c);
        if hex_char_value(c) is Some {
            crate::hex::lemma_hex_digit_code_pub(hex_char_value(c).unwrap());
            let l = if 65 <= (c as u32) <= 90 { ((c as u32) + 32) as char } else { c };
            let d = hex_digit(hex_char_value(c).unwrap());
            crate::text::lemma_char_code_injective(l, d);
        } else {
            let l = if 65 <= (c as u32) <= 90 { ((c as u32) + 32) as char } else { c };
            assert(hex_char_value(l) is None);
        }
    }
    crate::hex::lemma_hex_digit_code_pub(0);
    crate::text::lemma_char_code_injective(hex_digit(0), '0');
}

/// Whether buckets of `child` reference rows of `parent` (foreign keys across buckets).
pub open spec fn depends_on(child: Bucket, parent: Bucket) -> bool {
    match (child, parent) {
        (Bucket::Tracks(_), Bucket::LibraryRoots) => true,
        (Bucket::Tags, Bucket::TagCategories) => true,
        (Bucket::DiscoveryTracks, Bucket::DiscoveryReleases) => true,
        (Bucket::Cues, Bucket::Tracks(_)) => true,
        (Bucket::TrackTags, Bucket::Tracks(_)) => true,
        (Bucket::TrackTags, Bucket::Tags) => true,
        (Bucket::PlaylistTracks, Bucket::Playlists) => true,
        (Bucket::PlaylistTracks, Bucket::Tracks(_)) => true,
        (Bucket::DiscoveryReleaseTags, Bucket::DiscoveryReleases) => true,
        (Bucket::DiscoveryReleaseTags, Bucket::Tags) => true,
        (Bucket::PlaylistDiscoveryReleases, Bucket::Playlists) => true,
        (Bucket::PlaylistDiscoveryReleases, Bucket::DiscoveryReleases) => true,
        _ => false,
    }
}

/// Law: in the merge order every parent bucket comes before each bucket that depends on
/// it, and the merge order lists exactly the buckets of `all`, each once.
pub proof fn lemma_merge_order_sound(child: Bucket, parent: Bucket)
    requires
        bucket_valid(child),
        bucket_valid(parent),
        depends_on(child, parent),
    ensures
        merge_order_spec().contains(child),
        merge_order_spec().contains(parent),
        merge_order_spec().index_of(parent) < merge_order_spec().index_of(child),
{
    let m = merge_order_spec();
    assert forall|i: int| 0 <= i < 16 implies #[trigger] m[3 + i] == Bucket::Tracks(i as u8) by {}
    assert forall|i: int| 0 <= i < m.len() && m[i] == parent implies i == position_in_merge(parent) by {}
    assert forall|i: int| 0 <= i < m.len() && m[i] == child implies i == position_in_merge(child) by {}
    assert(m[position_in_merge(parent)] == parent);
    assert(m[position_in_merge(child)] == child);
}

/// Where a valid bucket sits in [`merge_order_spec`].
pub open spec fn position_in_merge(b: Bucket) -> int {
    match b {
        Bucket::TagCategories => 0,
        Bucket::LibraryRoots => 1,
        Bucket::DiscoveryReleases => 2,
        Bucket::Tracks(n) => 3 + n as int,
        Bucket::Tags => 19,
        Bucket::Playlists => 20,
        Bucket::DiscoveryTracks => 21,
        Bucket::Cues => 22,
        Bucket::TrackTags => 23,
        Bucket::PlaylistTracks => 24,
        Bucket::DiscoveryReleaseTags => 25,
        Bucket::PlaylistDiscoveryReleases => 26,
        Bucket::Settings => 27,
    }
}

/// Law: `all` and `merge_order` both list every valid bucket exactly once (28 buckets).
pub proof fn lemma_bucket_lists_complete(b: Bucket)
    requires
        bucket_valid(b),
    ensures
        all_buckets().len() == 28,
        merge_order_spec().len() == 28,
        all_buckets().contains(b),
        merge_order_spec().contains(b),
        all_buckets().no_duplicates(),
        merge_order_spec().no_duplicates(),
{
    let a = all_buckets();
    let m = merge_order_spec();
    assert forall|i: int| 0 <= i < 16 implies #[trigger] a[i] == Bucket::Tracks(i as u8) by {}
    assert forall|i: int| 0 <= i < 16 implies #[trigger] m[3 + i] == Bucket::Tracks(i as u8) by {}
    assert(m[position_in_merge(b)] == b);
    assert(a[position_in_all(b)] == b);
    assert forall|i: int, j: int| 0 <= i < a.len() && 0 <= j < a.len() && i != j implies a[i] != a[j] by {
        assert(i == position_in_all(a[i]));
        assert(j == position_in_all(a[j]));
    }
    assert forall|i: int, j: int| 0 <= i < m.len() && 0 <= j < m.len() && i != j implies m[i] != m[j] by {
        assert(i == position_in_merge(m[i]));
        assert(j == position_in_merge(m[j]));
    }
}

/// Where a valid bucket sits in [`all_buckets`].
pub open spec fn position_in_all(b: Bucket) -> int {
    match b {
        Bucket::Tracks(n) => n as int,
        Bucket::Playlists => 16,
        Bucket::PlaylistTracks => 17,
        Bucket::Cues => 18,
        Bucket::TagCategories => 19,
        Bucket::Tags => 20,
        Bucket::TrackTags => 21,
        Bucket::DiscoveryReleases => 22,
        Bucket::DiscoveryTracks => 23,
        Bucket::DiscoveryReleaseTags => 24,
        Bucket::PlaylistDiscoveryReleases => 25,
        Bucket::LibraryRoots => 26,
        Bucket::Settings => 27,
    }
}

} // verus!
