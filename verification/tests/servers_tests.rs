use naviarr::health::{lastfm_health, server_health, service_health};
use naviarr::jellyfin::{auth_header, client_auth_header, cover_url, endpoint, request_error, stream_url, user_id_result};
use naviarr::profiles::ActiveProfile;
use naviarr::settings::{
    counts_backend, filter_setting_updates, is_allowed_key, library_stats, liked_artist_name,
};
use naviarr::library::Backend;

fn jf() -> ActiveProfile {
    ActiveProfile {
        url: "http://jf:8096//".to_string(),
        username: "me".to_string(),
        password: "KEY".to_string(),
        server_type: "jellyfin".to_string(),
    }
}

#[test]
fn jellyfin_urls() {
    let p = jf();
    assert_eq!(
        auth_header(&p),
        "MediaBrowser Client=\"naviarr\", Device=\"Desktop\", DeviceId=\"naviarr-desktop\", Version=\"1.0.0\", Token=\"KEY\""
    );
    assert_eq!(endpoint(&p, "//Items"), "http://jf:8096/Items");
    assert_eq!(
        cover_url(&p, "abc", 300),
        "http://jf:8096/Items/abc/Images/Primary?fillHeight=300&fillWidth=300&quality=96"
    );
    assert_eq!(cover_url(&p, "", 300), "");
    assert_eq!(stream_url(&p, "abc"), "http://jf:8096/Items/abc/Download?api_key=KEY");
    assert_eq!(stream_url(&p, ""), "");
    assert_eq!(request_error("404 Not Found", "missing"), "Jellyfin error 404 Not Found: missing");
    assert_eq!(user_id_result(Some("u1".to_string())).ok(), Some("u1".to_string()));
    assert_eq!(user_id_result(None).err().unwrap(), "Failed to get user ID from Jellyfin/Emby");
}

#[test]
fn health_lights() {
    assert_eq!(lastfm_health(&Some("sk".to_string()), &None), "online");
    assert_eq!(lastfm_health(&Some(String::new()), &Some("k".to_string())), "offline");
    assert_eq!(lastfm_health(&None, &Some(String::new())), "missing");
    assert_eq!(server_health(None), "missing");
    assert_eq!(server_health(Some(true)), "online");
    assert_eq!(server_health(Some(false)), "offline");
    let h = service_health(Some(true), &None, &None);
    assert_eq!((h.subsonic.as_str(), h.lastfm.as_str()), ("online", "missing"));
}

#[test]
fn settings_updates() {
    assert!(is_allowed_key("LASTFM_USERNAME"));
    assert!(!is_allowed_key("PLEX_CLIENT_ID"));
    let ups = vec![
        ("LASTFM_API_KEY".to_string(), "k".to_string()),
        ("BOGUS".to_string(), "x".to_string()),
        ("SUBSONIC_PASSWORD".to_string(), "p".to_string()),
    ];
    assert_eq!(
        filter_setting_updates(&ups).ok().unwrap(),
        vec![
            ("LASTFM_API_KEY".to_string(), "k".to_string()),
            ("SUBSONIC_PASSWORD".to_string(), "p".to_string()),
        ]
    );
    assert_eq!(
        filter_setting_updates(&vec![("BOGUS".to_string(), "x".to_string())]).err().unwrap(),
        "No valid setting keys provided"
    );
}

#[test]
fn liked_artists_and_stats() {
    assert_eq!(liked_artist_name("  Björk ").ok(), Some("Björk".to_string()));
    assert_eq!(liked_artist_name("   ").err().unwrap(), "Artist name is required.");
    assert_eq!(counts_backend(&None), None);
    let mut p = jf();
    assert_eq!(counts_backend(&Some(jf())), Some(Backend::Jellyfin));
    p.server_type = "local".to_string();
    assert_eq!(counts_backend(&Some(p)), None);
    let s = library_stats(3, true, Some((1, 20, 5)));
    assert_eq!((s.liked_artists, s.playlist_count, s.total_playlist_songs, s.starred_songs), (3, Some(1), Some(20), Some(5)));
    assert!(s.last_fm_configured);
    let e = library_stats(0, false, None);
    assert_eq!(e.playlist_count, None);
}

#[test]
fn client_header_names_client_and_version() {
    assert_eq!(
        client_auth_header("madrify", "0.1.0", "KEY"),
        "MediaBrowser Client=\"madrify\", Device=\"Desktop\", DeviceId=\"madrify-desktop\", Version=\"0.1.0\", Token=\"KEY\""
    );
}
