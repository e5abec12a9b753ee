use naviarr::disk_cache::{cached_file_url, CacheMetadata};
use naviarr::library::{auth_params_with_salt, build_url_with_salt, check_subsonic_reply, cover_url, stream_url};
use naviarr::loader::{cached_song_ids, is_cacheable, json_response_error, snippet_len, song_is_cached, InflightLoads};
use naviarr::local::{
    album_list_order, album_listing_order, album_search_positions, file_url, group_albums,
    newest_first_order, random_order, root_path, title_listing_order, ScannedTrack,
};
use naviarr::profiles::ActiveProfile;
use naviarr::subsonic::check_reply;
use naviarr::urls::{is_local_stream, is_remote_cover_url, root_path_of, should_cache_cover};

fn s(v: &str) -> String {
    v.to_string()
}

fn profile(ty: &str, url: &str, pw: &str) -> ActiveProfile {
    ActiveProfile { url: s(url), username: s("me"), password: s(pw), server_type: s(ty) }
}

fn scanned(album_id: &str, cover: &str, modified: u128) -> ScannedTrack {
    ScannedTrack {
        album_id: s(album_id),
        album: s(&format!("Album {album_id}")),
        artist: s("Artist"),
        cover_art_url: s(cover),
        modified,
    }
}

#[test]
fn request_urls_for_profiles() {
    let p = profile("subsonic", "http://nav:4533", "secret");
    let ps = auth_params_with_salt(&p, "salt");
    let keys: Vec<&str> = ps.iter().map(|(k, _)| k.as_str()).collect();
    assert_eq!(keys, vec!["u", "v", "c", "f", "t", "s"]);
    assert_eq!(ps[4].1, "99cd2e5a95d555ee7be3b038a4a84625");
    let legacy = profile("subsonic", "http://nav:4533", "enc:7077");
    assert_eq!(auth_params_with_salt(&legacy, "x")[4], (s("p"), s("enc:7077")));
    assert_eq!(
        build_url_with_salt(&legacy, "ping", &vec![(s("q"), s("a b"))], "x").ok().unwrap(),
        "http://nav:4533/rest/ping?u=me&v=1.16.1&c=madrify&f=json&p=enc%3A7077&q=a+b"
    );
    assert_eq!(
        build_url_with_salt(&profile("subsonic", "::bad::", "p"), "ping", &vec![], "x").err().unwrap(),
        "invalid profile url"
    );
    assert_eq!(cover_url(&p, "", 10).ok().unwrap(), "");
    let c = cover_url(&p, "7", 240).ok().unwrap();
    assert!(c.starts_with("http://nav:4533/rest/getCoverArt?u=me&v=1.16.1&c=madrify&f=json&t="));
    assert!(c.ends_with("&id=7&size=240"));
    let st = stream_url(&p, "9").ok().unwrap();
    assert!(st.starts_with("http://nav:4533/rest/download?"));
    assert!(st.ends_with("&id=9"));
}

#[test]
fn reply_checks() {
    assert_eq!(check_subsonic_reply(false, &None, &None).err().unwrap(), "Invalid Subsonic response");
    assert!(check_subsonic_reply(true, &Some(s("ok")), &None).is_ok());
    assert_eq!(check_subsonic_reply(true, &Some(s("failed")), &Some(s("Wrong"))).err().unwrap(), "Wrong");
    assert_eq!(check_subsonic_reply(true, &None, &None).err().unwrap(), "Subsonic request failed");
    assert_eq!(check_reply(false, &None, &None).err().unwrap(), "Invalid response: missing subsonic-response");
    assert_eq!(check_reply(true, &Some(s("failed")), &None).err().unwrap(), "Unknown subsonic error");
}

#[test]
fn albums_are_grouped() {
    let tracks = vec![scanned("a", "", 5), scanned("b", "cb", 1), scanned("a", "ca", 9), scanned("a", "cx", 2)];
    let groups = group_albums(&tracks);
    assert_eq!(groups.len(), 2);
    assert_eq!(groups[0].id, "a");
    assert_eq!(groups[0].name, "Album a");
    assert_eq!(groups[0].tracks, vec![0, 2, 3]);
    assert_eq!(groups[0].cover_art_url, "ca");
    assert_eq!(groups[0].modified, 9);
    assert_eq!(groups[0].artist_id, "local-artist-0441f9e2d94c39a70e21b83829259aa4");
    assert_eq!(groups[1].tracks, vec![1]);
}

#[test]
fn album_lists() {
    let albums = vec![(s("b"), s("X")), (s("A"), s("z")), (s("a"), s("y"))];
    assert_eq!(album_listing_order(&albums), vec![2, 1, 0]);
    assert_eq!(album_search_positions(&albums, " Y"), vec![2]);
    assert_eq!(album_search_positions(&albums, ""), vec![0, 1, 2]);
    assert_eq!(album_search_positions(&albums, "b"), vec![0]);
    assert_eq!(title_listing_order(&vec![s("b"), s("A"), s("a")]), vec![1, 2, 0]);
    assert_eq!(newest_first_order(&vec![5, 9, 5, 1]), vec![1, 0, 2, 3]);
    assert_eq!(album_list_order("newest", &vec![1, 2]), vec![1, 0]);
    let mut r = random_order(5);
    r.sort();
    assert_eq!(r, vec![0, 1, 2, 3, 4]);
    let mut r2 = album_list_order("random", &vec![3, 3, 3]);
    r2.sort();
    assert_eq!(r2, vec![0, 1, 2]);
}

#[test]
fn roots_and_urls() {
    assert_eq!(root_path(&profile("local", " file:///music/ ", "")), "/music");
    assert_eq!(root_path(&profile("local", " /srv/music// ", "")), "/srv/music");
    assert_eq!(root_path_of("http://x/y"), "http://x/y");
    assert_eq!(file_url("/m/a b.mp3"), "file:///m/a%20b.mp3");
    assert_eq!(file_url("rel/a.mp3"), "rel/a.mp3");
    assert!(is_remote_cover_url("https://img/x.jpg"));
    assert!(!is_remote_cover_url("data:image/png;base64,AA"));
    assert!(!is_remote_cover_url("not a url"));
    assert!(should_cache_cover(true, "http://img/x.jpg"));
    assert!(!should_cache_cover(false, "http://img/x.jpg"));
    assert!(is_local_stream("file:///m/a.mp3", false));
    assert!(is_local_stream("/m/a.mp3", true));
    assert!(!is_local_stream("http://x/a.mp3", false));
}

#[test]
fn cache_records() {
    let m = CacheMetadata::written("k", "artwork", "http://x", "image/PNG", 10, 100);
    assert_eq!(m.file_extension, "png");
    assert_eq!((m.cached_at_unix_ms, m.last_accessed_unix_ms), (100, 100));
    assert!(m.is_artwork());
    let t = m.touched(12, 250);
    assert_eq!(t.eviction_entry(), (12, 250));
    assert_eq!(t.cached_at_unix_ms, 100);
    assert_eq!(cached_file_url("/c/a.mp3").ok().unwrap(), "file:///c/a.mp3");
    assert_eq!(cached_file_url("c/a.mp3").err().unwrap(), "Failed to convert cached file path into URL");
}

#[test]
fn loading_rules() {
    assert!(song_is_cached(false, "file:///a.mp3", false));
    assert!(song_is_cached(false, "data:audio/mpeg;base64,", false));
    assert!(!song_is_cached(false, "http://x", false));
    assert!(song_is_cached(false, "http://x", true));
    assert_eq!(cached_song_ids(&vec![s("a"), s("b"), s("c")], &vec![true, false, true]), vec![s("a"), s("c")]);
    assert!(is_cacheable(false));
    let mut inflight = InflightLoads::new();
    assert!(!inflight.begin("a"));
    assert!(inflight.begin("a"));
    assert!(!inflight.begin("b"));
    inflight.finish("a");
    assert!(!inflight.begin("a"));
    assert_eq!(
        json_response_error("application/json; charset=utf-8", "{\"error\"").unwrap(),
        "Expected audio stream for playback, got JSON response: {\"error\""
    );
    assert!(json_response_error("audio/mpeg", "x").is_none());
    assert_eq!(snippet_len(500), 160);
    assert_eq!(snippet_len(3), 3);
}
