use naviarr::plex::{
    album_list_sort, auth_start, build_auth_url, client_id, complete_poll_result, cover_url,
    is_media_container, join_authed_url, pending_poll_result, plex_username, select_servers,
    similar_search_count, similar_selection, stored_client_id, stream_url, usable_auth_token,
    PlexConnection, PlexDevice, SectionKeyCache, section_key_of, servers_from_resources, plex_tracks, plex_request_url,
};
use naviarr::profiles::ActiveProfile;

fn s(v: &str) -> Option<String> {
    Some(v.to_string())
}

fn conn(uri: &str, local: &str, protocol: &str) -> PlexConnection {
    PlexConnection { uri: s(uri), local: s(local), protocol: s(protocol) }
}

fn device(name: &str, provides: &str, owned: &str, token: Option<&str>, conns: Vec<PlexConnection>) -> PlexDevice {
    PlexDevice {
        name: s(name),
        client_identifier: s(&format!("id-{name}")),
        access_token: token.map(|t| t.to_string()),
        owned: s(owned),
        source_title: None,
        provides: s(provides),
        connections: conns,
    }
}

#[test]
fn auth_page_url_is_form_encoded() {
    assert_eq!(
        build_auth_url("cid", "A B&C"),
        "https://app.plex.tv/auth#?clientID=cid&code=A+B%26C&context%5Bdevice%5D%5Bproduct%5D=Madrify"
    );
    let st = auth_start(7, "CODE".to_string(), None, "c\u{e9}");
    assert_eq!(st.pin_id, 7);
    assert_eq!(
        st.auth_url,
        "https://app.plex.tv/auth#?clientID=c%C3%A9&code=CODE&context%5Bdevice%5D%5Bproduct%5D=Madrify"
    );
}

#[test]
fn client_ids_and_usernames() {
    assert_eq!(stored_client_id(&s("  abc ")), s("abc"));
    assert_eq!(stored_client_id(&s("   ")), None);
    assert_eq!(client_id(&s("keep")), "keep");
    let fresh = client_id(&None);
    assert_eq!(fresh.len(), 32);
    assert!(fresh.chars().all(|c| c.is_ascii_alphanumeric()));
    assert_eq!(plex_username(None, s("Title"), s("Friendly")), s("Title"));
    assert_eq!(plex_username(s(" "), s("Title"), None), None);
    assert_eq!(plex_username(None, None, None), None);
}

#[test]
fn polling_states() {
    assert_eq!(usable_auth_token(s("  ")), None);
    assert_eq!(usable_auth_token(s("tok")), s("tok"));
    assert_eq!(pending_poll_result(s("2030")).status, "pending");
    assert_eq!(pending_poll_result(None).status, "expired");
    let done = complete_poll_result(s("me"), "tok".to_string(), None, vec![]);
    assert_eq!(done.status, "complete");
    assert_eq!(done.auth_token, s("tok"));
}

#[test]
fn servers_are_selected_and_ordered() {
    let devices = vec![
        device("zeta", "server", "1", None, vec![conn("http://10.0.0.2:32400", "1", "http")]),
        device("player", "player", "1", None, vec![conn("http://x", "1", "http")]),
        device("Alpha", "client, server", "0", Some(" own "), vec![
            conn(" https://remote ", "0", "https"),
            conn("http://local", "1", "http"),
            conn("  ", "1", "https"),
        ]),
        device("beta", "server", "1", Some(""), vec![conn("https://a", "0", "https"), conn("https://b", "0", "http")]),
        device("noconn", "server", "1", None, vec![]),
    ];
    let out = select_servers(&devices, "ACCOUNT");
    let names: Vec<&str> = out.iter().map(|s| s.name.as_str()).collect();
    assert_eq!(names, vec!["zeta", "beta", "Alpha"]);
    assert_eq!(out[0].uri, "http://10.0.0.2:32400");
    assert!(out[0].local && out[0].owned);
    assert_eq!(out[0].access_token, "ACCOUNT");
    assert_eq!(out[1].uri, "https://b");
    assert_eq!(out[1].access_token, "ACCOUNT");
    assert_eq!(out[2].uri, "http://local");
    assert_eq!(out[2].access_token, "own");
    assert!(!out[2].owned);
    assert_eq!(out[2].machine_identifier, "id-Alpha");
}

#[test]
fn authed_media_urls() {
    let p = ActiveProfile {
        url: "http://plex:32400/".to_string(),
        username: String::new(),
        password: "T K".to_string(),
        server_type: "plex".to_string(),
    };
    assert_eq!(
        join_authed_url(&p, "/library/metadata/1/thumb/2"),
        "http://plex:32400/library/metadata/1/thumb/2?X-Plex-Token=T+K"
    );
    assert_eq!(cover_url(&p, ""), "");
    assert_eq!(stream_url(&p, "a/b"), "http://plex:32400/a/b?X-Plex-Token=T+K");
    let bad = ActiveProfile { url: "nope".to_string(), ..p };
    assert_eq!(join_authed_url(&bad, "x"), "");
}

#[test]
fn library_requests() {
    assert_eq!(album_list_sort("recent"), "lastViewedAt:desc");
    assert_eq!(album_list_sort("frequent"), "viewCount:desc");
    assert_eq!(album_list_sort("highest"), "userRating:desc");
    assert_eq!(album_list_sort("random"), "random");
    assert_eq!(album_list_sort("newest"), "addedAt:desc");
    assert_eq!(similar_search_count(1), 8);
    assert_eq!(similar_search_count(10), 20);
    assert_eq!(similar_search_count(u32::MAX), u32::MAX);
    let ids: Vec<String> = ["1", "2", "1", "3", "4"].iter().map(|s| s.to_string()).collect();
    assert_eq!(similar_selection(&ids, "1", 2), vec![1, 3]);
    assert_eq!(similar_selection(&ids, "9", 10), vec![0, 1, 2, 3, 4]);
}

#[test]
fn music_section_lookup_and_cache() {
    let sections = r#"<MediaContainer size="3">
  <Directory type="photo" key="1" title="Photos"/>
  <Directory type="artist" key="3" title="Music"/>
  <Directory type="artist" key="4" title="More music"/>
</MediaContainer>"#;
    assert_eq!(section_key_of(sections), Ok("3".to_string()));
    assert_eq!(
        section_key_of("<MediaContainer><Directory type=\"movie\" key=\"2\"/></MediaContainer>"),
        Err("No Plex music library section found.".to_string())
    );
    assert_eq!(
        section_key_of("<MediaContainer><Directory type=\"artist\"/><Directory type=\"artist\" key=\"9\"/></MediaContainer>"),
        Err("No Plex music library section found.".to_string())
    );
    assert!(section_key_of("<MediaContainer>").is_err());
    let mut cache = SectionKeyCache::new();
    assert_eq!(cache.get("http://a"), None);
    cache.insert("http://a".to_string(), "3".to_string());
    cache.insert("http://b".to_string(), "5".to_string());
    cache.insert("http://a".to_string(), "7".to_string());
    assert_eq!(cache.get("http://a"), s("7"));
    assert_eq!(cache.get("http://b"), s("5"));
}

#[test]
fn resources_document_gives_ordered_servers() {
    let xml = r#"<?xml version="1.0" encoding="UTF-8"?>
<MediaContainer size="3">
  <Device name="zeta" provides="client,server" owned="0" clientIdentifier="z1" accessToken=" tok-z ">
    <Connection protocol="http" address="10.0.0.2" uri="http://10.0.0.2:32400" local="1"/>
    <Connection protocol="https" uri="https://remote.example:32400" local="0"/>
  </Device>
  <Device name="Player" provides="player" owned="1" clientIdentifier="p1">
    <Connection protocol="http" uri="http://10.0.0.9:32500" local="1"/>
  </Device>
  <Device name="Alpha" provides="server" owned="1" clientIdentifier="a1" sourceTitle="me">
    <Connection protocol="https" uri="https://a.plex.direct:32400" local="0"/>
    <Connection protocol="https" uri="https://b.plex.direct:32400" local="0"/>
  </Device>
</MediaContainer>"#;
    let servers = servers_from_resources(xml, "ACCOUNT").unwrap();
    assert_eq!(servers.len(), 2);
    assert_eq!(servers[0].name, "Alpha");
    assert_eq!(servers[0].uri, "https://b.plex.direct:32400");
    assert_eq!(servers[0].access_token, "ACCOUNT");
    assert_eq!(servers[0].source_title, Some("me".to_string()));
    assert!(servers[0].owned);
    assert!(!servers[0].local);
    assert_eq!(servers[1].name, "zeta");
    assert_eq!(servers[1].uri, "http://10.0.0.2:32400");
    assert_eq!(servers[1].machine_identifier, "z1");
    assert_eq!(servers[1].access_token, "tok-z");
    assert!(servers[1].local);
    assert!(servers_from_resources("<MediaContainer><Device>", "t").is_err());
    assert_eq!(servers_from_resources("<MediaContainer/>", "t").unwrap().len(), 0);
}

#[test]
fn media_container_detection() {
    assert_eq!(is_media_container("<MediaContainer size=\"0\"/>"), Ok(true));
    assert_eq!(is_media_container("<html><body/></html>"), Ok(false));
    assert!(is_media_container("not xml at all").is_err());
}

#[test]
fn tracks_of_a_library_document() {
    let xml = r#"<MediaContainer size="2">
  <Track ratingKey="11" title="Song A" grandparentTitle="Artist" parentTitle="Album" parentRatingKey="5"
         thumb="/t/11" key="/library/metadata/11" duration="201500" parentGenre="">
    <Media container="flac" bitrate="+900"><Part key="/library/parts/11/file.flac"/></Media>
  </Track>
  <Directory title="not a track"/>
  <Track ratingKey="12" originalTitle="Guest" grandparentThumb="/g/12" key="/library/metadata/12" Genre="Jazz">
    <Media container="" bitrate="abc"/>
  </Track>
  <Track ratingKey="13"/>
</MediaContainer>"#;
    let tracks = plex_tracks(xml, 2).unwrap();
    assert_eq!(tracks.len(), 2);
    let a = &tracks[0];
    assert_eq!((a.id.as_str(), a.title.as_str(), a.artist.as_str(), a.album.as_str()), ("11", "Song A", "Artist", "Album"));
    assert_eq!((a.album_id.as_str(), a.thumb.as_str()), ("5", "/t/11"));
    assert_eq!(a.stream_key, "/library/parts/11/file.flac");
    assert_eq!(a.audio_format, Some("flac".to_string()));
    assert_eq!(a.bitrate_kbps, Some(900));
    assert_eq!(a.genre, None);
    assert_eq!(a.duration, "201500");
    let b = &tracks[1];
    assert_eq!((b.artist.as_str(), b.thumb.as_str(), b.stream_key.as_str()), ("Guest", "/g/12", "/library/metadata/12"));
    assert_eq!((b.audio_format.clone(), b.bitrate_kbps, b.genre.clone()), (None, None, Some("Jazz".to_string())));
    assert_eq!(b.duration, "");
    assert_eq!(plex_tracks(xml, 10).unwrap().len(), 3);
    assert!(plex_tracks("<MediaContainer>", 1).is_err());
}

#[test]
fn plex_request_urls() {
    let p = ActiveProfile {
        url: "http://plex.local:32400//".to_string(),
        username: String::new(),
        password: "tok".to_string(),
        server_type: "plex".to_string(),
    };
    let params = vec![("query".to_string(), "a b".to_string()), ("limit".to_string(), "5".to_string())];
    assert_eq!(
        plex_request_url(&p, "/library/sections/3/search", &params),
        Some("http://plex.local:32400/library/sections/3/search?query=a+b&limit=5".to_string())
    );
    assert_eq!(plex_request_url(&p, "/", &vec![]), Some("http://plex.local:32400/?".to_string()));
}
