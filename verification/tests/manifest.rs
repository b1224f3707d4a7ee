use crate_sync::buckets::Bucket;
use crate_sync::manifest::{
    compute_local_manifest, diff_manifest, object_key, preserve_unmanaged, superseded_blobs,
    BucketEntry, BucketSnapshot, Manifest, ManifestDiff, ManifestEtag, MANIFEST_FORMAT_VERSION,
};
use crate_sync::rows::bucket_hash;

fn manifest_with(entries: &[(&str, &str)]) -> Manifest {
    let mut m = Manifest::empty("dev");
    for (name, hash) in entries {
        m.buckets.insert(
            name.to_string(),
            BucketEntry {
                blob_hash: hash.to_string(),
                object_key: format!("{name}-{hash}.jsonl.gz"),
                count: 0,
                hlc: String::new(),
            },
        );
    }
    m
}

#[test]
fn identical_manifests_have_no_diff() {
    let a = manifest_with(&[("playlists", "h1"), ("tags", "h2")]);
    let b = manifest_with(&[("playlists", "h1"), ("tags", "h2")]);
    assert_eq!(diff_manifest(&a, &b), ManifestDiff { to_upload: vec![], to_download: vec![] });
}

#[test]
fn differing_hash_uploads_and_downloads() {
    let local = manifest_with(&[("playlists", "h1")]);
    let remote = manifest_with(&[("playlists", "h2")]);
    let d = diff_manifest(&local, &remote);
    assert_eq!(d.to_upload, vec!["playlists".to_string()]);
    assert_eq!(d.to_download, vec!["playlists".to_string()]);
}

#[test]
fn one_sided_buckets_go_the_right_way() {
    let local = manifest_with(&[("playlists", "h1")]);
    let remote = manifest_with(&[("tags", "h2")]);
    let d = diff_manifest(&local, &remote);
    assert_eq!(d.to_upload, vec!["playlists".to_string()]);
    assert_eq!(d.to_download, vec!["tags".to_string()]);
}

#[test]
fn preserve_unmanaged_carries_forward_remote_only_buckets() {
    // A scoped (mobile-like) local manifest holds only a discovery bucket.
    let local = manifest_with(&[("discovery_releases", "d1")]);
    // The shared remote also has a library bucket this node does not manage.
    let remote = manifest_with(&[("discovery_releases", "d0"), ("tracks/3", "t9")]);

    let merged = preserve_unmanaged(local, Some(&remote));

    // Local wins for the bucket it manages...
    assert_eq!(merged.buckets.get("discovery_releases").unwrap().blob_hash, "d1");
    // ...and the unmanaged remote bucket is carried forward unchanged (no orphan).
    assert_eq!(merged.buckets.get("tracks/3").unwrap().blob_hash, "t9");
    assert_eq!(merged.buckets.len(), 2);
}

#[test]
fn preserve_unmanaged_without_remote_is_noop() {
    let local = manifest_with(&[("discovery_releases", "d1")]);
    let merged = preserve_unmanaged(local, None);
    assert_eq!(merged.buckets.len(), 1);
    assert_eq!(merged.buckets.get("discovery_releases").unwrap().blob_hash, "d1");
}

#[test]
fn diff_lists_are_sorted_by_name() {
    let local = manifest_with(&[("tags", "a"), ("cues", "b"), ("playlists", "c")]);
    let remote = Manifest::empty("other");
    let d = diff_manifest(&local, &remote);
    assert_eq!(d.to_upload, vec!["cues".to_string(), "playlists".to_string(), "tags".to_string()]);
    assert!(d.to_download.is_empty());
}

#[test]
fn bucket_map_keeps_names_ascending_and_replaces() {
    let mut m = manifest_with(&[("tags", "1"), ("cues", "2")]);
    let old = m.buckets.insert(
        "cues".to_string(),
        BucketEntry { blob_hash: "3".into(), object_key: "k".into(), count: 1, hlc: String::new() },
    );
    assert_eq!(old.unwrap().blob_hash, "2");
    assert_eq!(m.buckets.len(), 2);
    assert_eq!(m.buckets.entry(0).0, "cues");
    assert_eq!(m.buckets.entry(1).0, "tags");
    assert_eq!(m.bucket("cues").unwrap().blob_hash, "3");
    assert!(m.bucket("playlists").is_none());
}

#[test]
fn object_key_layout() {
    assert_eq!(
        object_key("uid1", &Bucket::Tracks(10), "abc"),
        "users/uid1/vault/tracks/a-abc.jsonl.gz"
    );
}

#[test]
fn etag_token_accessor() {
    assert_eq!(ManifestEtag::token("t1".to_string()).as_token(), Some("t1"));
    assert_eq!(ManifestEtag::counter(3).as_token(), None);
}

#[test]
fn local_manifest_from_snapshots() {
    let snaps = vec![
        BucketSnapshot { bucket: Bucket::Tags, jsonl: b"x\n".to_vec(), count: 1, hlc: "0002".into() },
        BucketSnapshot { bucket: Bucket::Cues, jsonl: Vec::new(), count: 0, hlc: String::new() },
        BucketSnapshot { bucket: Bucket::Playlists, jsonl: b"y\n".to_vec(), count: 2, hlc: "0009".into() },
    ];
    let m = compute_local_manifest("dev1", snaps);
    assert_eq!(m.format_version, MANIFEST_FORMAT_VERSION);
    assert_eq!(m.last_writer_device, "dev1");
    assert_eq!(m.manifest_hlc, "0009");
    assert_eq!(m.buckets.len(), 3);
    let tags = m.bucket("tags").unwrap();
    assert_eq!(tags.blob_hash, bucket_hash(b"x\n"));
    assert_eq!(tags.object_key, format!("tags-{}.jsonl.gz", bucket_hash(b"x\n")));
    assert_eq!(tags.count, 1);
    assert_eq!(m.bucket("playlists").unwrap().count, 2);
    assert_eq!(m.bucket("cues").unwrap().hlc, "");
}

#[test]
fn superseded_blobs_only_for_changed_keys_with_a_remote() {
    let local = manifest_with(&[("playlists", "new"), ("tags", "same")]);
    let remote = manifest_with(&[("playlists", "old"), ("tags", "same")]);
    let names = vec!["playlists".to_string(), "tags".to_string(), "cues".to_string()];
    let keys = superseded_blobs(&local, Some(&remote), "u1", &names);
    assert_eq!(keys, vec!["users/u1/vault/playlists-old.jsonl.gz".to_string()]);
    assert!(superseded_blobs(&local, None, "u1", &names).is_empty());
}

#[test]
fn vault_keys_live_under_the_user() {
    assert_eq!(
        crate_sync::manifest::vault_key("u1", "playlists-ab12.jsonl.gz"),
        "users/u1/vault/playlists-ab12.jsonl.gz"
    );
}
