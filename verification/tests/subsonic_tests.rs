use naviarr::profiles::ActiveProfile;
use naviarr::subsonic::{decode_legacy_password, url_or_base, SubsonicAuth, SubsonicClient};

fn profile(ty: &str, pw: &str) -> ActiveProfile {
    ActiveProfile {
        url: "http://music.example/".to_string(),
        username: "me".to_string(),
        password: pw.to_string(),
        server_type: ty.to_string(),
    }
}

#[test]
fn legacy_passwords_decode() {
    assert_eq!(decode_legacy_password("plain"), "plain");
    assert_eq!(decode_legacy_password("enc:736563726574"), "secret");
    assert_eq!(decode_legacy_password("enc:C3A9"), "\u{e9}");
    assert_eq!(decode_legacy_password("enc:+a"), "\n");
    assert_eq!(decode_legacy_password("enc:abc"), "abc");
    assert_eq!(decode_legacy_password("enc:zz"), "zz");
    assert_eq!(decode_legacy_password("enc:ff"), "ff");
    assert_eq!(decode_legacy_password("enc:"), "");
    assert_eq!(decode_legacy_password("enc:\u{e9}"), "\u{e9}");
}

#[test]
fn client_auth_modes() {
    let c = SubsonicClient::new(&profile("subsonic", "pw"));
    assert_eq!(c.base_url, "http://music.example");
    assert!(matches!(c.auth, SubsonicAuth::Token(ref p) if p == "pw"));
    let c = SubsonicClient::new(&profile("subsonic_legacy", "pw"));
    assert!(matches!(c.auth, SubsonicAuth::Plain(ref p) if p == "pw"));
    let c = SubsonicClient::new(&profile("subsonic", "enc:7077"));
    assert!(matches!(c.auth, SubsonicAuth::Plain(ref p) if p == "pw"));
}

#[test]
fn token_params_with_salt() {
    let c = SubsonicClient::new(&profile("subsonic", "secret"));
    let ps = c.auth_params_with_salt("salt");
    let keys: Vec<&str> = ps.iter().map(|(k, _)| k.as_str()).collect();
    assert_eq!(keys, vec!["v", "c", "f", "u", "t", "s"]);
    assert_eq!(ps[0].1, "1.16.1");
    assert_eq!(ps[1].1, "madrify");
    assert_eq!(ps[4].1, "99cd2e5a95d555ee7be3b038a4a84625");
    assert_eq!(ps[5].1, "salt");
    let random = c.auth_params();
    assert_eq!(random.len(), 6);
    assert_eq!(random[5].1.len(), 16);
    assert!(random[5].1.chars().all(|ch| ch.is_ascii_alphanumeric()));
}

#[test]
fn urls_with_salt() {
    let c = SubsonicClient::new(&profile("subsonic_legacy", "p w"));
    let url = c.build_url_with_salt("ping", &vec![("id".to_string(), "a&b".to_string())], "");
    assert_eq!(url, "http://music.example/rest/ping?v=1.16.1&c=madrify&f=json&u=me&p=p+w&id=a%26b");
    assert_eq!(c.cover_art_url("", 10), "");
    assert_eq!(c.stream_url(""), "");
    assert!(c.stream_url("42").starts_with("http://music.example/rest/stream?v=1.16.1"));
    assert!(c.stream_url("42").ends_with("&p=p+w&id=42"));
    assert!(c.cover_art_url("7", -3).ends_with("&id=7&size=-3"));
}

#[test]
fn unparsable_base_is_kept() {
    let c = SubsonicClient::new(&ActiveProfile {
        url: "not a url".to_string(),
        username: "u".to_string(),
        password: "x".to_string(),
        server_type: "subsonic_legacy".to_string(),
    });
    assert_eq!(c.build_url_with_salt("ping", &vec![], ""), "not a url/rest/ping");
    assert_eq!(url_or_base(None, "b".to_string()), "b");
    assert_eq!(url_or_base(Some("u".to_string()), "b".to_string()), "u");
}

#[test]
fn legacy_password_round_trip() {
    for s in ["pässwörd ✓", "", "plain"] {
        let lower: String = s.as_bytes().iter().map(|b| format!("{:02x}", b)).collect();
        let upper: String = s.as_bytes().iter().map(|b| format!("{:02X}", b)).collect();
        assert_eq!(decode_legacy_password(&format!("enc:{}", lower)), s);
        assert_eq!(decode_legacy_password(&format!("enc:{}", upper)), s);
    }
    assert_eq!(decode_legacy_password("secret"), "secret");
}
