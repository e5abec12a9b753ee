use naviarr::jellyfin::{jellyfin_format_at, jellyfin_songs, jellyfin_user_id};
use naviarr::json::{array_len_at, element, member, value_text_at};
use naviarr::lastfm::{lastfm_reply, lastfm_session, lastfm_token};
use naviarr::library::{song_audio_format_at, subsonic_reply};
use naviarr::lyric_sources::{
    lrclib_record, lrclib_url, musixmatch_token, mxm_candidates, mxm_found_at, mxm_lyrics_at, mxm_reply,
    mxm_subtitle_at, DurationFit,
};
use naviarr::subsonic::{
    album_records_at, child_format_at, client_reply, playlist_records_at, song_record_at, song_records_at,
};

#[test]
fn pointers_are_built_from_keys_and_positions() {
    assert_eq!(member("/a", "b"), "/a/b");
    assert_eq!(member("", "subsonic-response"), "/subsonic-response");
    assert_eq!(element("/list", 12), "/list/12");
}

#[test]
fn subsonic_reply_verdicts() {
    assert_eq!(subsonic_reply(r#"{"subsonic-response":{"status":"ok","version":"1.16.1"}}"#), Ok(()));
    assert_eq!(
        subsonic_reply(r#"{"subsonic-response":{"status":"failed","error":{"code":40,"message":"Wrong username or password"}}}"#),
        Err("Wrong username or password".to_string())
    );
    assert_eq!(
        subsonic_reply(r#"{"subsonic-response":{"status":"failed"}}"#),
        Err("Subsonic request failed".to_string())
    );
    assert_eq!(subsonic_reply(r#"{"other":1}"#), Err("Invalid Subsonic response".to_string()));
    let bad = subsonic_reply("<html>");
    assert!(bad.is_err());
    assert_ne!(bad, Err("Invalid Subsonic response".to_string()));
}

#[test]
fn song_and_child_formats_from_reply_text() {
    let text = r#"{"songs":[{"suffix":" flac ","contentType":"audio/flac"},{"contentType":"audio/mpeg "},{"transcodedSuffix":"opus","suffix":"flac"}]}"#;
    assert_eq!(song_audio_format_at(text, "/songs/0"), Some("flac".to_string()));
    assert_eq!(song_audio_format_at(text, "/songs/1"), Some("mpeg".to_string()));
    assert_eq!(song_audio_format_at(text, "/songs/2"), Some("opus".to_string()));
    assert_eq!(song_audio_format_at(text, "/songs/3"), None);
    assert_eq!(child_format_at(text, "/songs/0"), Some(" flac ".to_string()));
    assert_eq!(child_format_at(text, "/songs/1"), Some("mpeg".to_string()));
}

#[test]
fn jellyfin_reply_fields() {
    assert_eq!(jellyfin_user_id(r#"{"Id":"u-1","Name":"me"}"#), Ok("u-1".to_string()));
    assert_eq!(
        jellyfin_user_id(r#"{"Name":"me"}"#),
        Err("Failed to get user ID from Jellyfin/Emby".to_string())
    );
    assert!(jellyfin_user_id("nope").is_err());
    let text = r#"{"Items":[
        {"Container":"flac","Bitrate":900000},
        {"MediaSources":[{"Container":" mp3 ","Bitrate":320000}]},
        {"MediaSources":{"0":{"Container":"ogg"}}}
    ]}"#;
    assert_eq!(jellyfin_format_at(text, "/Items/0"), (Some("flac".to_string()), Some(900)));
    assert_eq!(jellyfin_format_at(text, "/Items/1"), (Some("mp3".to_string()), Some(320)));
    assert_eq!(jellyfin_format_at(text, "/Items/2"), (None, None));
}

#[test]
fn lastfm_reply_texts() {
    assert_eq!(lastfm_reply(r#"{"token":"t"}"#), Ok(()));
    assert_eq!(
        lastfm_reply(r#"{"error":9,"message":"Invalid session key"}"#),
        Err("Last.fm error 9: Invalid session key".to_string())
    );
    assert_eq!(lastfm_reply(r#"{"error":"x"}"#), Err("Last.fm error \"x\": Last.fm error".to_string()));
    let t = lastfm_token("KEY", r#"{"token":"tok"}"#).unwrap();
    assert_eq!(t.token, "tok");
    assert_eq!(t.auth_url, "https://www.last.fm/api/auth/?api_key=KEY&token=tok");
    assert_eq!(lastfm_token("KEY", "{}").err().unwrap(), "Failed to get auth token");
    let (session, key) = lastfm_session(r#"{"session":{"name":"bob","key":"sk","subscriber":0}}"#).unwrap();
    assert_eq!(session.username, "bob");
    assert_eq!(key, "sk");
    assert_eq!(
        lastfm_session(r#"{"session":{"name":"bob"}}"#).err().unwrap(),
        "No session key returned from Last.fm"
    );
    assert_eq!(lastfm_session(r#"{"other":{}}"#).err().unwrap(), "No session in Last.fm response");
}

#[test]
fn lrclib_record_texts() {
    let r = lrclib_record(r#"{"plainLyrics":"Hello\nWorld","syncedLyrics":"[00:01.00] Hello","instrumental":false}"#).unwrap();
    assert_eq!(r.synced_lyrics, Some("[00:01.00] Hello".to_string()));
    assert!(r.plain_lyrics.is_some());
    assert_eq!(r.provider, Some("LRCLIB".to_string()));
    let i = lrclib_record(r#"{"instrumental":true}"#).unwrap();
    assert!(i.instrumental);
    assert!(lrclib_record(r#"{"plainLyrics":"  ","syncedLyrics":null}"#).is_none());
    assert!(lrclib_record("not json").is_none());
    assert_eq!(
        lrclib_url("A B", "T", "", Some(215)),
        Some("https://lrclib.net/api/get?artist_name=A+B&track_name=T&duration=215".to_string())
    );
}

#[test]
fn musixmatch_reply_texts() {
    assert_eq!(musixmatch_token(r#"{"message":{"body":{"user_token":"ut"}}}"#), Ok("ut".to_string()));
    assert_eq!(musixmatch_token(r#"{"message":{"body":""}}"#), Err("no token in response".to_string()));
    assert_eq!(
        mxm_reply(r#"{"message":{"header":{"status_code":401,"hint":"renew"},"body":""}}"#),
        Ok((401, "renew".to_string(), true))
    );
    assert_eq!(mxm_reply(r#"{"message":{"header":{"status_code":200},"body":null}}"#), Ok((200, String::new(), false)));
    assert_eq!(mxm_reply(r#"{"message":{"header":{"status_code":70000}}}"#), Ok((0, String::new(), false)));
    assert!(mxm_reply("{").is_err());
    let matched = r#"{"message":{"body":{"track":{"track_id":42,"instrumental":1}}}}"#;
    let f = mxm_found_at(matched, "/message/body/track").unwrap();
    assert_eq!(f.track_id, 42);
    assert!(f.instrumental);
    assert!(mxm_found_at(r#"{"message":{"body":{"track":{"track_id":"42"}}}}"#, "/message/body/track").is_none());
    let negative = r#"{"t":{"track_id":7,"instrumental":-1}}"#;
    assert!(mxm_found_at(negative, "/t").unwrap().instrumental);
    let float_flag = r#"{"t":{"track_id":7,"instrumental":1.0}}"#;
    assert!(!mxm_found_at(float_flag, "/t").unwrap().instrumental);
    let search = r#"{"message":{"body":{"track_list":[
        {"track":{"track_id":1,"track_name":"One","artist_name":"A","album_name":"X","instrumental":false}},
        {"track":{"track_name":"No id"}},
        {"track":{"track_id":3,"track_name":"Three","artist_name":"C"}}
    ]}}}"#;
    let cs = mxm_candidates(search, &vec![DurationFit::Close, DurationFit::Far]);
    assert_eq!(cs.len(), 2);
    assert_eq!(cs[0].track.track_name, "One");
    assert_eq!(cs[0].fit, DurationFit::Close);
    assert_eq!(cs[0].found.track_id, 1);
    assert_eq!(cs[1].track.album_name, "");
    assert_eq!(cs[1].fit, DurationFit::Unknown);
    assert_eq!(cs[1].found.track_id, 3);
    let lyrics = r#"{"message":{"body":{"lyrics":{"lyrics_body":"la la","restricted":0}}}}"#;
    assert_eq!(mxm_lyrics_at(lyrics), Some(("la la".to_string(), false)));
    assert_eq!(mxm_lyrics_at(r#"{"message":{"body":{}}}"#), None);
    let sub = r#"{"message":{"body":{"subtitle":{"subtitle_body":"[00:01.00] la"}}}}"#;
    assert_eq!(mxm_subtitle_at(sub), Some("[00:01.00] la".to_string()));
    assert_eq!(mxm_subtitle_at("{}"), None);
}

#[test]
fn subsonic_song_entries() {
    let text = r#"{"subsonic-response":{"status":"ok","searchResult3":{"song":[
        {"id":"s1","title":"One","artist":"A","album":"X","albumId":"al1","coverArt":"c1","suffix":"mp3","bitRate":320,"duration":201.5},
        {"id":"s2","title":"Two","displayArtist":"B","parent":"al2","transcodedSuffix":"opus","bitRate":0},
        {"id":"s3"}
    ]}}}"#;
    let list = "/subsonic-response/searchResult3/song";
    let songs = song_records_at(text, list);
    assert_eq!(songs.len(), 3);
    assert_eq!((songs[0].id.as_str(), songs[0].title.as_str(), songs[0].artist.as_str()), ("s1", "One", "A"));
    assert_eq!((songs[0].album_id.as_str(), songs[0].cover_art.as_str()), ("al1", "c1"));
    assert_eq!(songs[0].audio_format, Some("mp3".to_string()));
    assert_eq!(songs[0].bitrate_kbps, Some(320));
    assert_eq!((songs[1].artist.as_str(), songs[1].album_id.as_str(), songs[1].cover_art.as_str()), ("B", "al2", "al2"));
    assert_eq!(songs[1].audio_format, Some("opus".to_string()));
    assert_eq!(songs[1].bitrate_kbps, None);
    assert_eq!((songs[2].album_id.as_str(), songs[2].cover_art.as_str(), songs[2].artist.as_str()), ("", "s3", ""));
    assert!(song_records_at(text, "/subsonic-response/nothing").is_empty());
    let one = song_record_at(text, "/subsonic-response/searchResult3/song/1");
    assert_eq!(one.title, "Two");
}

#[test]
fn client_reply_verdicts() {
    assert_eq!(client_reply(r#"{"subsonic-response":{"status":"ok"}}"#), Ok(()));
    assert_eq!(
        client_reply(r#"{"subsonic-response":{"status":"failed"}}"#),
        Err("Unknown subsonic error".to_string())
    );
    assert_eq!(
        client_reply(r#"{"subsonic-response":{"status":"failed","error":{"message":"Not found"}}}"#),
        Err("Not found".to_string())
    );
    assert_eq!(client_reply("{}"), Err("Invalid response: missing subsonic-response".to_string()));
    assert!(client_reply("").is_err());
}

#[test]
fn subsonic_album_and_playlist_entries() {
    let text = r#"{"subsonic-response":{"albumList2":{"album":[
        {"id":"a1","name":"First","artist":"A","artistId":"ar1","coverArt":"c1","songCount":10},
        {"id":"a2","name":"Second","displayArtist":"B"}
    ]},"playlists":{"playlist":[{"id":"p1","name":"Mix","coverArt":"pc"},{"id":"p2"}]}}}"#;
    let albums = album_records_at(text, "/subsonic-response/albumList2/album");
    assert_eq!(albums.len(), 2);
    assert_eq!((albums[0].id.as_str(), albums[0].name.as_str(), albums[0].artist.as_str()), ("a1", "First", "A"));
    assert_eq!((albums[0].artist_id.as_str(), albums[0].cover_art.as_str()), ("ar1", "c1"));
    assert_eq!((albums[1].artist.as_str(), albums[1].artist_id.as_str(), albums[1].cover_art.as_str()), ("B", "", "a2"));
    let lists = playlist_records_at(text, "/subsonic-response/playlists/playlist");
    assert_eq!(lists.len(), 2);
    assert_eq!((lists[0].name.as_str(), lists[0].cover_art.as_str()), ("Mix", "pc"));
    assert_eq!((lists[1].name.as_str(), lists[1].cover_art.as_str()), ("", "p2"));
}

#[test]
fn jellyfin_audio_items() {
    let text = r#"{"Items":[
        {"Id":"i1","Name":"One","Album":"X","AlbumId":"al1","Artists":["A","B"],"ImageTags":{"Primary":"t"},"Container":"flac","Genres":["Rock"]},
        {"Id":"i2","Name":"Two","AlbumId":"al2","Artists":[],"ImageTags":{},"MediaSources":[{"Container":"mp3","Bitrate":192000}]}
    ],"TotalRecordCount":2}"#;
    let songs = jellyfin_songs(text);
    assert_eq!(songs.len(), 2);
    assert_eq!((songs[0].id.as_str(), songs[0].title.as_str(), songs[0].artist.as_str()), ("i1", "One", "A"));
    assert_eq!((songs[0].cover_id.as_str(), songs[0].genre.clone()), ("i1", Some("Rock".to_string())));
    assert_eq!(songs[0].audio_format, Some("flac".to_string()));
    assert_eq!((songs[1].artist.as_str(), songs[1].album.as_str(), songs[1].cover_id.as_str()), ("", "", "al2"));
    assert_eq!((songs[1].audio_format.clone(), songs[1].bitrate_kbps), (Some("mp3".to_string()), Some(192)));
    assert!(jellyfin_songs("{}").is_empty());
}

#[test]
fn number_texts_and_array_lengths() {
    let text = r#"{"a":[1,2.5,"x",null],"n":-3}"#;
    assert_eq!(array_len_at(text, "/a"), Some(4));
    assert_eq!(array_len_at(text, "/n"), None);
    assert_eq!(value_text_at(text, "/a/1"), Some("2.5".to_string()));
    assert_eq!(value_text_at(text, "/a/2"), Some("\"x\"".to_string()));
    assert_eq!(value_text_at(text, "/n"), Some("-3".to_string()));
    assert_eq!(value_text_at(text, "/missing"), None);
    assert_eq!(value_text_at("{", ""), None);
}
