use naviarr::local::{
    album_id, artist_id, check_library_root, audio_format, normalize, normalize_local_root, path_fallback,
    relative_parts, search_positions, sidecar_cover_candidates, song_id, supported_extension,
    track_listing_order, track_names,
};

fn s(v: &str) -> String {
    v.to_string()
}

#[test]
fn roots() {
    assert_eq!(normalize_local_root(" /music/ "), "/music");
    assert_eq!(normalize_local_root("/"), "/");
    assert_eq!(normalize_local_root("   "), "");
    assert_eq!(normalize_local_root("//"), "");
    assert_eq!(normalize(" ABC "), "abc");
}

#[test]
fn relative_components() {
    assert_eq!(relative_parts("/music", "/music/Artist/Album/01.mp3"), vec![s("Artist"), s("Album"), s("01.mp3")]);
    assert_eq!(relative_parts("/Music", "/music/A/x.mp3"), vec![s("A"), s("x.mp3")]);
    assert_eq!(relative_parts("/other", "/music/x.mp3"), vec![s("/"), s("music"), s("x.mp3")]);
}

#[test]
fn names_from_paths_and_tags() {
    assert_eq!(path_fallback("/music", "/music/Artist/Album/01 Song.mp3"), (s("Artist"), s("Album"), s("01 Song")));
    assert_eq!(path_fallback("/music", "/music/Artist/x.mp3"), (s("Artist"), s("Singles"), s("x")));
    assert_eq!(path_fallback("/music", "/music/x.mp3"), (s("Unknown Artist"), s("Singles"), s("x")));
    assert_eq!(
        track_names((s("A"), s("B"), s("T")), &Some(s(" X ")), &Some(s(" ")), &None),
        (s("X"), s("B"), s("T"))
    );
    assert_eq!(
        track_names((s(""), s(""), s("T")), &None, &None, &Some(s("Title"))),
        (s("Unknown Artist"), s("Unknown Album"), s("Title"))
    );
}

#[test]
fn files_and_formats() {
    assert!(supported_extension("/a/b.FLAC"));
    assert!(supported_extension("/a/b.opus"));
    assert!(!supported_extension("/a/.mp3"));
    assert!(!supported_extension("/a/b.txt"));
    assert!(!supported_extension("/a/b"));
    assert_eq!(audio_format("/a/b.mp3"), Some(s("mp3")));
    assert_eq!(audio_format("/a/b"), None);
    let c = sidecar_cover_candidates("/a/Album");
    assert_eq!(c.len(), 12);
    assert_eq!(c[0], "/a/Album/cover.jpg");
    assert_eq!(c[11], "/a/Album/album.png");
}

#[test]
fn ids() {
    assert_eq!(album_id(" Artist", "ALBUM "), "local-album-b48d725d64146bd72d8da71dbe5a8364");
    assert_eq!(artist_id("Artist"), "local-artist-0441f9e2d94c39a70e21b83829259aa4");
    assert_eq!(song_id("/m/a.mp3"), "local-song-9e24d42fe7348c40bec45daacc31fa63");
}

#[test]
fn ordering_and_search() {
    let tracks = vec![(s("b"), s("x"), s("1")), (s("A"), s("y"), s("2")), (s("a"), s("x"), s("3")), (s("a"), s("x"), s("3"))];
    assert_eq!(track_listing_order(&tracks), vec![2, 3, 1, 0]);
    assert_eq!(search_positions(&tracks, " X ", 1), vec![0]);
    assert_eq!(search_positions(&tracks, "x", 10), vec![0, 2, 3]);
    assert_eq!(search_positions(&tracks, "", 2), vec![0, 1]);
}

#[test]
fn library_root_must_be_an_existing_folder() {
    assert_eq!(check_library_root(false, false), Err("Local library folder does not exist.".to_string()));
    assert_eq!(check_library_root(true, false), Err("Local library path must be a folder.".to_string()));
    assert_eq!(check_library_root(true, true), Ok(()));
}
