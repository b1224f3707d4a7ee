use crate_sync::resolution::{probe_for, resolved, PathProbe, ResolvedPath};

#[test]
fn tracks_with_a_root_probe_under_it() {
    assert_eq!(
        probe_for(Some("root-1"), Some("Artist/track.flac"), "/Users/a/Music/Artist/track.flac"),
        PathProbe::UnderRoot { root_id: "root-1".into(), relative: "Artist/track.flac".into() }
    );
}

#[test]
fn tracks_without_a_root_fall_back_to_their_import_path() {
    assert_eq!(probe_for(None, Some("x.mp3"), "/tmp/x.mp3"), PathProbe::Absolute("/tmp/x.mp3".into()));
    assert_eq!(probe_for(Some("r"), None, "/tmp/x.mp3"), PathProbe::Absolute("/tmp/x.mp3".into()));
    assert_eq!(probe_for(None, None, ""), PathProbe::Absolute(String::new()));
}

#[test]
fn only_an_existing_file_is_playable() {
    assert_eq!(resolved(Some("/a/b.mp3".into()), true), ResolvedPath::Playable("/a/b.mp3".into()));
    assert_eq!(resolved(Some("/a/b.mp3".into()), false), ResolvedPath::Unavailable);
    assert_eq!(resolved(None, true), ResolvedPath::Unavailable);
}
