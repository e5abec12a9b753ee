use naviarr::android_media::{button_action, stop, ButtonAction, MediaButton, MediaSession, ServiceCall};
use naviarr::cast::{
    actor_continues, bind_addresses, cast_images, device_key, player_state_name, CastCommandKind,
    CastPlayerState, CastSession, DeviceRegistry,
};
use naviarr::digest::{base64_standard, md5_digest, md5_hex_of_str};
use naviarr::lyric_sources::{
    adv_id_of, date_yyyymmdd, today_yyyymmdd, genius_result, guid_of, lrc_timestamp, lrclib_query, lrclib_result,
    lyrics_sources, mark_cached, matcher_query, musixmatch_result, mxm_outcome, mxm_plain_lyrics,
    mxm_sign, new_device_ids, pick_search_result, token_from_reply, DurationFit, LyricsSources,
    MxmOutcome, MxmTrack, api_url, token_request_url,
};
use naviarr::providers::{
    audiodb_search_term, build_lbz_track_meta, lbz_authorization, lbz_recommendations_url,
    lbz_request_error, lfm_query, lfm_request_params, require_lfm_key, LfmRequest,
};

fn pairs(p: &[(&str, &str)]) -> Vec<(String, String)> {
    p.iter().map(|(k, v)| (k.to_string(), v.to_string())).collect()
}

#[test]
fn lyrics_provider_choice_and_results() {
    assert_eq!(lyrics_sources(Some("musixmatch")), LyricsSources::MusixmatchOnly);
    assert_eq!(lyrics_sources(Some("lrclib")), LyricsSources::LrclibOnly);
    assert_eq!(lyrics_sources(Some("genius")), LyricsSources::MusixmatchThenLrclib);
    assert_eq!(lyrics_sources(None), LyricsSources::MusixmatchThenLrclib);
    let r = lrclib_result(Some(" a \n".to_string()), Some("  ".to_string()), false).unwrap();
    assert_eq!(r.plain_lyrics.as_deref(), Some("a"));
    assert_eq!(r.synced_lyrics, None);
    assert_eq!(r.provider.as_deref(), Some("LRCLIB"));
    assert!(lrclib_result(None, Some(" ".to_string()), false).is_none());
    let i = lrclib_result(Some("x".to_string()), None, true).unwrap();
    assert!(i.instrumental && i.plain_lyrics.is_none());
    assert!(mark_cached(i).cached);
    assert!(musixmatch_result(None, None, false).is_none());
    assert_eq!(musixmatch_result(None, None, true).unwrap().provider.as_deref(), Some("Musixmatch"));
    assert_eq!(mxm_plain_lyrics("x", true), None);
    assert_eq!(mxm_plain_lyrics(" x ", false), Some("x".to_string()));
    assert_eq!(genius_result("p".to_string(), None).provider.as_deref(), Some("Genius"));
}

#[test]
fn provider_queries() {
    assert_eq!(
        lrclib_query("A", "T", "", Some(215)),
        pairs(&[("artist_name", "A"), ("track_name", "T"), ("duration", "215")])
    );
    assert_eq!(lrclib_query("A", "T", "Al", None).len(), 3);
    assert_eq!(matcher_query("T", "A", "Al"), pairs(&[("q_track", "T"), ("q_artist", "A"), ("q_album", "Al")]));
    assert_eq!(matcher_query("T", "A", ""), pairs(&[("q_track", "T"), ("q_artist", "A")]));
}

#[test]
fn musixmatch_replies() {
    assert!(matches!(mxm_outcome(200, ""), MxmOutcome::Body));
    assert!(matches!(mxm_outcome(404, ""), MxmOutcome::Nothing));
    assert!(matches!(mxm_outcome(400, "x"), MxmOutcome::Nothing));
    assert!(matches!(mxm_outcome(401, "renew"), MxmOutcome::TokenExpired));
    match mxm_outcome(401, "captcha") {
        MxmOutcome::Failed(m) => assert_eq!(m, "musixmatch 401: captcha"),
        _ => panic!("expected a failure"),
    }
    assert_eq!(token_from_reply(None).err().unwrap(), "no token in response");
    let tracks = vec![
        MxmTrack { track_name: "Song".to_string(), artist_name: "Other".to_string(), album_name: String::new() },
        MxmTrack { track_name: "Song (Live)".to_string(), artist_name: "Artist".to_string(), album_name: "Al".to_string() },
        MxmTrack { track_name: "Song".to_string(), artist_name: "Artist, B".to_string(), album_name: "AL".to_string() },
    ];
    let fits = vec![DurationFit::Close, DurationFit::Near, DurationFit::Far];
    assert_eq!(pick_search_result(&tracks, &fits, "Artist", "Song", ""), Some(1));
    assert_eq!(pick_search_result(&tracks, &fits, "Artist", "Song", "Other album"), None);
    let far = vec![DurationFit::Far, DurationFit::Far, DurationFit::Unknown];
    assert_eq!(pick_search_result(&tracks, &far, "Artist", "Song", "al"), Some(2));
}

#[test]
fn musixmatch_signing() {
    assert_eq!(
        mxm_sign("http://x/", "20240101"),
        Some("http://x/?signature=wbPY2dzTO2SXifIjaANeKrhoHhU%3D%0A&signature_protocol=sha1".to_string())
    );
    let u = api_url("track.get", "tok", &pairs(&[("track_id", "7")]), "20240101").unwrap();
    assert!(u.starts_with(
        "https://apic.musixmatch.com/ws/1.1/track.get?app_id=android-player-v1.0&usertoken=tok&format=json&track_id=7&signature="
    ));
    assert!(u.ends_with("&signature_protocol=sha1"));
    let t = token_request_url("adv", "guid", "20240101").unwrap();
    assert!(t.contains("adv_id=adv&guid=guid&root=0&sideloaded=0&build_number=2022090901&lang=en_US&signature="));
    assert_eq!(adv_id_of(1, 2, 3, 4, 0xffff_0000_0000_0001), "00000001-0002-0003-0004-000000000001");
    assert_eq!(guid_of(255), "00000000000000ff");
    let (adv, guid) = new_device_ids();
    assert_eq!(adv.len(), 36);
    assert_eq!(guid.len(), 16);
    assert_eq!(date_yyyymmdd(1700000000), "20231114");
    assert_eq!(date_yyyymmdd(0), "19700101");
    assert_eq!(date_yyyymmdd(951782400), "20000229");
    assert_eq!(lrc_timestamp(61005), "[01:01.005]");
    assert_eq!(lrc_timestamp(0), "[00:00.000]");
}

#[test]
fn metadata_providers() {
    assert_eq!(audiodb_search_term("  Queen "), Some("Queen".to_string()));
    assert_eq!(audiodb_search_term("  "), None);
    assert_eq!(
        lfm_request_params(&LfmRequest::ArtistTopTracks { artist: "A".to_string(), limit: 5 }),
        pairs(&[("method", "artist.getTopTracks"), ("artist", "A"), ("autocorrect", "1"), ("limit", "5")])
    );
    assert_eq!(
        lfm_request_params(&LfmRequest::ChartTopArtists { limit: 10 }),
        pairs(&[("method", "chart.gettopartists"), ("limit", "10")])
    );
    assert_eq!(require_lfm_key("").err().unwrap(), "No Last.fm API key configured");
    assert_eq!(
        lfm_query(&pairs(&[("method", "m")]), "k"),
        pairs(&[("method", "m"), ("api_key", "k"), ("format", "json")])
    );
    assert_eq!(
        lbz_recommendations_url(" bob ", 10).ok().unwrap(),
        "https://api.listenbrainz.org/1/cf/recommendation/user/bob/recording?count=10"
    );
    assert_eq!(lbz_recommendations_url(" ", 10).err().unwrap(), "ListenBrainz username is not configured");
    assert_eq!(lbz_request_error(404, "404 Not Found", " bob "), "ListenBrainz user \"bob\" not found");
    assert_eq!(lbz_request_error(500, "500 Internal Server Error", "b"), "ListenBrainz request failed with status 500 Internal Server Error");
    assert_eq!(lbz_authorization(" t "), Some("Token t".to_string()));
    assert_eq!(lbz_authorization(" "), None);
    let m = build_lbz_track_meta("a", "t", Some(""), Some(5));
    assert_eq!(m.release_name, None);
    assert_eq!(m.duration_ms, Some(5));
    assert_eq!(build_lbz_track_meta("a", "t", Some("r"), None).release_name, Some("r".to_string()));
}

#[test]
fn cast_discovery_and_session() {
    assert_eq!(device_key("1.2.3.4", 8009), "1.2.3.4:8009");
    let mut reg = DeviceRegistry::new();
    assert!(reg.record("TV".to_string(), "1.2.3.4".to_string(), 8009));
    assert!(!reg.record("TV again".to_string(), "1.2.3.4".to_string(), 8009));
    assert!(reg.record("TV".to_string(), "1.2.3.4".to_string(), 8010));
    let devs = reg.into_devices();
    assert_eq!(devs.len(), 2);
    assert_eq!(devs[0].name, "TV");
    assert_eq!(bind_addresses(vec![]), vec![(0, 0, 0, 0)]);
    assert_eq!(bind_addresses(vec![(false, Some((10, 0, 0, 2)))]), vec![(10, 0, 0, 2)]);
    assert_eq!(
        bind_addresses(vec![(true, Some((127, 0, 0, 1))), (false, None), (false, Some((192, 168, 1, 5)))]),
        vec![(192, 168, 1, 5)]
    );
    assert_eq!(bind_addresses(vec![(true, Some((127, 0, 0, 1))), (false, None)]), vec![(0, 0, 0, 0)]);
    let mut s = CastSession::new();
    assert_eq!(s.require_media().err().unwrap(), "No active media session");
    s.finish_load(Some(5));
    assert_eq!(s.require_media().ok(), Some(5));
    assert_eq!(s.status_state(Some((6, CastPlayerState::Paused))), "PAUSED");
    assert_eq!(s.media_session_id, 6);
    assert_eq!(s.status_state(None), "IDLE");
    s.begin_load();
    assert!(!s.has_media());
    assert_eq!(player_state_name(CastPlayerState::Buffering), "BUFFERING");
    assert!(cast_images(String::new()).is_empty());
    assert_eq!(cast_images("c".to_string()), vec!["c".to_string()]);
    assert!(!actor_continues(CastCommandKind::Stop));
    assert!(actor_continues(CastCommandKind::Seek));
}

#[test]
fn android_media_session() {
    let mut m = MediaSession::new();
    assert_eq!(m.media_state().title, "");
    match m.update_track("T", "A", "Al", "c", 1000, true, 5) {
        ServiceCall::Update { state, is_playing, position_ms } => {
            assert_eq!(state.title, "T");
            assert_eq!(state.duration_ms, 1000);
            assert!(is_playing);
            assert_eq!(position_ms, 5);
        },
        _ => panic!("expected an update"),
    }
    assert_eq!(m.media_state().album, "Al");
    assert!(matches!(m.update_playback_state(false, 9), ServiceCall::SetPlaying { is_playing: false, position_ms: 9 }));
    assert!(matches!(stop(), ServiceCall::Stop));
    assert!(matches!(button_action(MediaButton::Play), ButtonAction::EnginePlay));
    match button_action(MediaButton::Next) {
        ButtonAction::Emit(e) => assert_eq!(e, "media:next"),
        _ => panic!("expected an event"),
    }
}

#[test]
fn digests() {
    assert_eq!(md5_digest(b"secret").len(), 16);
    assert_eq!(md5_hex_of_str("secret").into_iter().collect::<String>(), "5ebe2294ecd0e0f08eab7690d2a6ee69");
    assert_eq!(base64_standard(b"hi"), "aGk=");
}

#[test]
fn today_is_an_eight_digit_date() {
    let d = today_yyyymmdd();
    assert_eq!(d.len(), 8);
    assert!(d.chars().all(|c| c.is_ascii_digit()));
    assert!(d.as_str() >= "20240101");
}
