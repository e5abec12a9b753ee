use naviarr::library::{
    bundle_recommendations, recommendation_seed,
    add_to_playlist_backend, album_list_request, backend_of, best_materialized_match,
    check_external_playback, check_favorites_supported, check_playlist_edit_supported,
    cover_cache_key, create_playlist_backend, dedupe_recommendations, delete_playlist_backend,
    is_external_track, is_jf, is_local, is_plex, love_mirror_params, materialize_backend,
    materialize_failure, materialize_query, needs_artwork_proxy, normalize_match,
    rename_playlist_backend, search_bundle_limits, star_backend, Backend, TrackRef,
    library_star_plan, add_to_playlist_plan,
};
use naviarr::profiles::ActiveProfile;

fn profile(ty: &str) -> ActiveProfile {
    ActiveProfile {
        url: "http://server".to_string(),
        username: "u".to_string(),
        password: "p".to_string(),
        server_type: ty.to_string(),
    }
}

fn track(id: &str, title: &str, artist: &str) -> TrackRef {
    TrackRef { id: id.to_string(), title: title.to_string(), artist: artist.to_string() }
}

#[test]
fn backends_of_server_types() {
    assert_eq!(backend_of("emby"), Backend::Jellyfin);
    assert_eq!(backend_of("jellyfin"), Backend::Jellyfin);
    assert_eq!(backend_of("plex"), Backend::Plex);
    assert_eq!(backend_of("local"), Backend::Local);
    assert_eq!(backend_of("subsonic_legacy"), Backend::Subsonic);
    assert!(is_jf(&profile("emby")));
    assert!(!is_jf(&profile("plex")));
    assert!(is_plex(&profile("plex")));
    assert!(is_local(&profile("local")));
    assert!(needs_artwork_proxy(&profile("jellyfin")));
    assert!(!needs_artwork_proxy(&profile("subsonic")));
}

#[test]
fn favorites_and_playlist_support() {
    assert_eq!(
        check_favorites_supported(&profile("local")).err().unwrap(),
        "Favorites are not supported for local libraries yet."
    );
    assert_eq!(
        check_favorites_supported(&profile("plex")).err().unwrap(),
        "Favorites are not supported for Plex libraries yet."
    );
    assert!(check_favorites_supported(&profile("emby")).is_ok());
    assert_eq!(star_backend(&profile("emby"), "").ok(), Some(Backend::Jellyfin));
    assert_eq!(star_backend(&profile("subsonic"), "").err().unwrap(), "Song id is required.");
    assert_eq!(star_backend(&profile("subsonic"), "7").ok(), Some(Backend::Subsonic));
    assert_eq!(
        check_playlist_edit_supported(&profile("plex")).err().unwrap(),
        "Editing Plex playlists is not supported yet."
    );
    assert_eq!(
        add_to_playlist_backend(&profile("subsonic"), "", "s").err().unwrap(),
        "playlistId and songId are required."
    );
    assert_eq!(add_to_playlist_backend(&profile("jellyfin"), "", "").ok(), Some(Backend::Jellyfin));
}

#[test]
fn playlist_routes() {
    assert_eq!(
        create_playlist_backend(&profile("subsonic"), "  ").err().unwrap(),
        "Playlist name is required."
    );
    assert_eq!(
        create_playlist_backend(&profile("plex"), "Mix").err().unwrap(),
        "Creating Plex playlists is not supported yet."
    );
    assert_eq!(
        create_playlist_backend(&profile("local"), "Mix").err().unwrap(),
        "Playlists are not supported for local libraries yet."
    );
    assert_eq!(create_playlist_backend(&profile("emby"), "Mix").ok(), Some(Backend::Jellyfin));
    assert_eq!(
        rename_playlist_backend(&profile("subsonic"), " ", "x").err().unwrap(),
        "Playlist id is required."
    );
    assert_eq!(
        rename_playlist_backend(&profile("subsonic"), "1", " ").err().unwrap(),
        "Playlist name is required."
    );
    assert_eq!(
        rename_playlist_backend(&profile("plex"), "1", "n").err().unwrap(),
        "Renaming Plex playlists is not supported yet."
    );
    assert_eq!(
        delete_playlist_backend(&profile("plex"), "1").err().unwrap(),
        "Deleting Plex playlists is not supported yet."
    );
    assert_eq!(delete_playlist_backend(&profile("subsonic"), "1").ok(), Some(Backend::Subsonic));
    assert_eq!(
        materialize_backend(&profile("plex"), "x").err().unwrap(),
        "Materializing external tracks is only supported for Subsonic-compatible servers."
    );
    assert_eq!(
        materialize_backend(&profile("local"), "x").err().unwrap(),
        "Local library tracks do not need materialization."
    );
    assert_eq!(materialize_backend(&profile("subsonic"), " ").err().unwrap(), "Song id is required.");
    assert_eq!(materialize_backend(&profile("subsonic"), "ext-1").ok(), Some(Backend::Subsonic));
}

#[test]
fn request_defaults() {
    assert_eq!(search_bundle_limits(None, Some(3), None), (24, 3, 16));
    assert_eq!(album_list_request(None, Some(500)), ("newest".to_string(), 100));
    assert_eq!(album_list_request(Some("random".to_string()), None), ("random".to_string(), 20));
}

#[test]
fn dedupe_drops_seed_and_repeats() {
    let ids: Vec<String> = ["a", "b", "b", "c", "a", "c", "d"].iter().map(|s| s.to_string()).collect();
    assert_eq!(dedupe_recommendations(&"a".to_string(), &ids), vec![1, 3, 6]);
    assert_eq!(dedupe_recommendations(&"z".to_string(), &vec![]), Vec::<usize>::new());
}

#[test]
fn materialized_match_prefers_exact() {
    let song = track("ext-9", "Song", "Artist");
    let cands = vec![
        track("ext-1", "Song", "Artist"),
        track("2", "Song (Live)", "Artist"),
        track("3", " SONG ", "artist"),
    ];
    assert_eq!(best_materialized_match(&cands, &song), Some(2));
    let loose = vec![track("ext-2", "Song", "Artist"), track("5", "Song (Live)", "The Artist")];
    assert_eq!(best_materialized_match(&loose, &song), Some(1));
    let none = vec![track("6", "Other", "Artist")];
    assert_eq!(best_materialized_match(&none, &song), None);
    let any_artist = track("ext-1", "song", "");
    assert_eq!(best_materialized_match(&none, &any_artist), None);
    assert_eq!(best_materialized_match(&vec![track("7", "My Song", "Someone")], &any_artist), Some(0));
}

#[test]
fn external_tracks_and_messages() {
    assert!(is_external_track("ext-abc"));
    assert!(!is_external_track("abc"));
    assert_eq!(normalize_match("  ÉCLAIR "), "éclair");
    assert_eq!(materialize_query(" A ", "B "), "A  B");
    assert_eq!(materialize_failure("T", "A"), "Could not materialize \"T\" by A for playback");
    assert_eq!(
        check_external_playback(&profile("plex")).err().unwrap(),
        "External playback materialization is only supported for Subsonic-compatible servers."
    );
    assert!(check_external_playback(&profile("subsonic")).is_ok());
}

#[test]
fn love_mirror() {
    let a = Some("Artist".to_string());
    let t = Some("Track".to_string());
    let ps = love_mirror_params(false, &a, &t, "k", "s", "sk").unwrap();
    assert_eq!(ps[0], ("method".to_string(), "track.love".to_string()));
    assert_eq!(ps[1], ("sk".to_string(), "sk".to_string()));
    assert_eq!(ps[2], ("artist".to_string(), "Artist".to_string()));
    assert_eq!(ps[3], ("track".to_string(), "Track".to_string()));
    let un = love_mirror_params(true, &a, &t, "k", "s", "sk").unwrap();
    assert_eq!(un[0].1, "track.unlove");
    assert!(love_mirror_params(true, &a, &t, "k", "s", "").is_none());
    assert!(love_mirror_params(true, &None, &t, "k", "s", "sk").is_none());
    assert!(love_mirror_params(true, &Some(String::new()), &t, "k", "s", "sk").is_none());
}

#[test]
fn cover_keys() {
    assert_eq!(cover_cache_key("song", "id1", "", 240), "song-cover-id1-240");
    assert_eq!(cover_cache_key("album", "id1", "al-9", 400), "album-cover-al-9-400");
}

#[test]
fn bundle_seed_is_first_song_and_no_songs_no_recommendations() {
    let s = |v: &[&str]| v.iter().map(|x| x.to_string()).collect::<Vec<String>>();
    assert_eq!(recommendation_seed(&s(&["a", "b"])), Some("a".to_string()));
    assert_eq!(recommendation_seed(&s(&[])), None);
    assert_eq!(bundle_recommendations(&s(&[]), &s(&["x", "y"])), Vec::<usize>::new());
    assert_eq!(bundle_recommendations(&s(&["a", "b"]), &s(&["a", "x", "x", "b"])), vec![1, 3]);
}

#[test]
fn star_and_playlist_plans_check_support_first() {
    assert_eq!(
        library_star_plan(&profile("plex"), "s1").err().unwrap(),
        "Favorites are not supported for Plex libraries yet."
    );
    assert_eq!(
        library_star_plan(&profile("local"), "").err().unwrap(),
        "Favorites are not supported for local libraries yet."
    );
    assert_eq!(library_star_plan(&profile("jellyfin"), "").ok(), Some(Backend::Jellyfin));
    assert_eq!(library_star_plan(&profile("subsonic"), "").err().unwrap(), "Song id is required.");
    assert_eq!(library_star_plan(&profile("navidrome"), "s1").ok(), Some(Backend::Subsonic));
    assert_eq!(
        add_to_playlist_plan(&profile("plex"), "p", "s").err().unwrap(),
        "Editing Plex playlists is not supported yet."
    );
    assert_eq!(
        add_to_playlist_plan(&profile("local"), "p", "s").err().unwrap(),
        "Playlists are not supported for local libraries yet."
    );
    assert_eq!(add_to_playlist_plan(&profile("emby"), "", "").ok(), Some(Backend::Jellyfin));
    assert_eq!(
        add_to_playlist_plan(&profile("subsonic"), "p", "").err().unwrap(),
        "playlistId and songId are required."
    );
    assert_eq!(add_to_playlist_plan(&profile("subsonic"), "p", "s").ok(), Some(Backend::Subsonic));
}
