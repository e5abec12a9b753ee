use std::collections::HashMap;

use naviarr::lastfm::{
    api_error_message, auth_token_result, build_scrobble, lfm_status, read_session_credentials,
    require_credentials, scrobbling_enabled, session_result, sign, signed_params, taste_artists,
    taste_connected, disconnect_writes, session_writes,
    user_taste,
};

fn ps(pairs: &[(&str, &str)]) -> Vec<(String, String)> {
    pairs.iter().map(|(k, v)| (k.to_string(), v.to_string())).collect()
}

#[test]
fn signature_sorts_and_skips_format() {
    let params = ps(&[("method", "auth.getToken"), ("format", "json"), ("api_key", "K"), ("callback", "cb")]);
    assert_eq!(sign(&params, "SECRET"), "8ca83e27e4d9d30386721d9c7ee41943");
    assert_eq!(sign(&ps(&[("b", "Y"), ("a", "X")]), "secret"), "b54a462994436b66c91e2f11e5b35132");
    assert_eq!(sign(&vec![], "secret"), "5ebe2294ecd0e0f08eab7690d2a6ee69");
    assert_eq!(sign(&ps(&[("\u{c0}", "a"), ("Z", "z")]), "secret"), "b8feae9db892dbf0ed2513cf8762a2ef");
}

#[test]
fn signed_call_parameters() {
    let out = signed_params(&ps(&[("method", "track.love"), ("sk", "session")]), "K", "SECRET");
    assert_eq!(
        out,
        ps(&[
            ("method", "track.love"),
            ("sk", "session"),
            ("api_key", "K"),
            ("api_sig", "a5318af26bd37539441ff95acad2a9df"),
            ("format", "json"),
        ])
    );
    let replaced = signed_params(&ps(&[("api_key", "old"), ("format", "xml")]), "K", "S");
    assert_eq!(replaced[0], ("api_key".to_string(), "K".to_string()));
    assert_eq!(replaced[1], ("format".to_string(), "json".to_string()));
    assert_eq!(replaced.len(), 3);
}

#[test]
fn credentials() {
    let k = Some("k".to_string());
    let s = Some("s".to_string());
    assert_eq!(require_credentials(&k, &s).ok(), Some(("k".to_string(), "s".to_string())));
    assert_eq!(
        require_credentials(&k, &Some(String::new())).err().unwrap(),
        "Last.fm API key and shared secret are required"
    );
    assert!(require_credentials(&None, &s).is_err());
    assert_eq!(
        read_session_credentials(&k, &None, &s),
        ("k".to_string(), String::new(), "s".to_string())
    );
    assert!(scrobbling_enabled("k", "s", "sk"));
    assert!(!scrobbling_enabled("k", "s", ""));
}

#[test]
fn scrobble_fields() {
    let f = build_scrobble(" A ", " T ", &Some(" Al ".to_string()), Some(0));
    assert_eq!((f.artist.as_str(), f.track.as_str(), f.album.as_str()), ("A", "T", "Al"));
    assert_eq!(f.timestamp, None);
    let g = build_scrobble("A", "T", &None, Some(1700000000));
    assert_eq!(g.album, "");
    assert_eq!(g.timestamp, Some(1700000000));
}

#[test]
fn auth_flow() {
    let t = auth_token_result("KEY", Some("tok".to_string())).ok().unwrap();
    assert_eq!(t.token, "tok");
    assert_eq!(t.auth_url, "https://www.last.fm/api/auth/?api_key=KEY&token=tok");
    assert_eq!(auth_token_result("KEY", None).err().unwrap(), "Failed to get auth token");
    assert_eq!(session_result("bob".to_string(), "sk").ok().unwrap().username, "bob");
    assert_eq!(
        session_result("bob".to_string(), "").err().unwrap(),
        "No session key returned from Last.fm"
    );
    assert_eq!(api_error_message("4", &Some("Bad".to_string())), "Last.fm error 4: Bad");
    assert_eq!(api_error_message("4", &None), "Last.fm error 4: Last.fm error");
}

#[test]
fn status_and_taste() {
    let st = lfm_status(&Some("sk".to_string()), &None);
    assert!(st.connected);
    assert_eq!(st.username, "");
    assert!(!lfm_status(&Some(String::new()), &Some("u".to_string())).connected);
    let names: Vec<String> = ["  A ", "B", "", "A", " ", "C"].iter().map(|s| s.to_string()).collect();
    assert_eq!(taste_artists(&names), vec!["A".to_string(), "B".to_string(), "C".to_string()]);
    let many: Vec<String> = (0..80).map(|i| format!("artist {}", i % 60)).collect();
    let t = taste_artists(&many);
    assert_eq!(t.len(), 50);
    assert_eq!(t[49], "artist 49");
    let off = user_taste(false, "u".to_string(), Some(names.clone()));
    assert!(!off.connected && off.artists.is_empty());
    let failed = user_taste(true, "u".to_string(), None);
    assert!(failed.connected && failed.artists.is_empty());
    assert_eq!(user_taste(true, "u".to_string(), Some(names)).artists.len(), 3);
}

#[test]
fn signature_is_independent_of_parameter_order() {
    let p = |k: &str, v: &str| (k.to_string(), v.to_string());
    let a = vec![p("method", "track.scrobble"), p("artist", "Cher"), p("api_key", "k"), p("format", "json")];
    let b = vec![p("format", "json"), p("api_key", "k"), p("artist", "Cher"), p("method", "track.scrobble")];
    assert_eq!(sign(&a, "s3cret"), sign(&b, "s3cret"));
}

#[test]
fn taste_needs_session_and_api_key() {
    assert!(taste_connected("k", "sk"));
    assert!(!taste_connected("", "sk"));
    assert!(!taste_connected("k", ""));
}

#[test]
fn status_after_disconnect_and_sign_in() {
    let mut store: HashMap<String, String> = HashMap::new();
    store.insert("LASTFM_SESSION_KEY".to_string(), "old".to_string());
    store.insert("LASTFM_USERNAME".to_string(), "alice".to_string());
    let status = |st: &HashMap<String, String>| {
        lfm_status(&st.get("LASTFM_SESSION_KEY").cloned(), &st.get("LASTFM_USERNAME").cloned())
    };
    for (k, v) in disconnect_writes() {
        store.insert(k, v);
    }
    let s = status(&store);
    assert!(!s.connected);
    assert_eq!(s.username, "");
    let session = session_result("bob".to_string(), "sk-1").ok().unwrap();
    for (k, v) in session_writes(&session, "sk-1") {
        store.insert(k, v);
    }
    let s = status(&store);
    assert!(s.connected);
    assert_eq!(s.username, "bob");
}
