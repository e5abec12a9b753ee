use naviarr::profiles::{
    active_profile_from_row, profile_from_row, connection_test_outcome, new_profile_active,
    check_profile_exists, decide_profile_deletion, normalize_server_type, normalize_server_url,
    plan_profile_update, validate_new_profile, ProfileDraft, TestProfilePayload, test_profile,
};

fn draft(name: &str, url: &str, user: &str, pw: Option<&str>, ty: &str) -> ProfileDraft {
    ProfileDraft {
        name: name.to_string(),
        url: url.to_string(),
        username: user.to_string(),
        password: pw.map(|p| p.to_string()),
        server_type: ty.to_string(),
    }
}

#[test]
fn new_profile_is_trimmed_and_normalised() {
    let d = draft("  Home ", " http://nas:4533/// ", " me ", Some(" pw "), "jellyfin");
    let p = validate_new_profile(&d).ok().unwrap();
    assert_eq!(p.name, "Home");
    assert_eq!(p.url, "http://nas:4533");
    assert_eq!(p.username, "me");
    assert_eq!(p.password, "pw");
    assert_eq!(p.server_type, "jellyfin");
}

#[test]
fn new_profile_errors_in_order() {
    assert_eq!(validate_new_profile(&draft(" ", "", "", None, "x")).err().unwrap(), "name is required");
    assert_eq!(validate_new_profile(&draft("a", "///", "", None, "x")).err().unwrap(), "url is required");
    assert_eq!(validate_new_profile(&draft("a", "u", " ", None, "x")).err().unwrap(), "username is required");
    assert_eq!(validate_new_profile(&draft("a", "u", "n", None, "x")).err().unwrap(), "password is required");
    assert_eq!(validate_new_profile(&draft("a", "u", "n", Some("  "), "x")).err().unwrap(), "password is required");
}

#[test]
fn unknown_server_types_become_subsonic() {
    assert_eq!(normalize_server_type("emby"), "emby");
    assert_eq!(normalize_server_type("subsonic_legacy"), "subsonic_legacy");
    assert_eq!(normalize_server_type("plex"), "subsonic");
    assert_eq!(normalize_server_type(""), "subsonic");
    assert_eq!(normalize_server_url("  https://x.org/ "), "https://x.org");
}

#[test]
fn update_skips_blank_fields() {
    let u = plan_profile_update(&draft(" ", " http://a/ ", "bob", Some("   "), "weird"));
    assert!(u.name.is_none());
    assert_eq!(u.url.as_deref(), Some("http://a"));
    assert_eq!(u.username.as_deref(), Some("bob"));
    assert!(u.password.is_none());
    assert_eq!(u.server_type, "subsonic");
    let u2 = plan_profile_update(&draft("n", "", "", None, "emby"));
    assert!(u2.password.is_none());
    assert!(u2.url.is_none());
}

#[test]
fn deletion_rules() {
    assert_eq!(decide_profile_deletion(None).err().unwrap(), "Profile not found");
    assert_eq!(
        decide_profile_deletion(Some((true, 1))).err().unwrap(),
        "Cannot delete the only server profile"
    );
    assert_eq!(decide_profile_deletion(Some((true, 2))).ok(), Some(true));
    assert_eq!(decide_profile_deletion(Some((false, 1))).ok(), Some(false));
}

#[test]
fn connection_test_profile() {
    let t = TestProfilePayload {
        url: " /music/ ".to_string(),
        username: " u ".to_string(),
        password: " p ".to_string(),
        server_type: "local".to_string(),
    };
    let p = test_profile(&t);
    assert_eq!(p.url, "/music/");
    assert_eq!(p.username, "u");
    let t2 = TestProfilePayload { server_type: "subsonic".to_string(), ..t };
    assert_eq!(test_profile(&t2).url, "/music");
    assert!(connection_test_outcome(true).is_ok());
    assert_eq!(
        connection_test_outcome(false).err().unwrap(),
        "Server responded but reported an error \u{2014} check your credentials."
    );
}

#[test]
fn rows_become_profiles() {
    let p = profile_from_row(
        7,
        "Home".to_string(),
        "http://h".to_string(),
        "me".to_string(),
        None,
        1,
        "c".to_string(),
        "u".to_string(),
    );
    assert_eq!(p.id, 7);
    assert_eq!(p.server_type, "subsonic");
    assert!(p.is_active);
    let q = profile_from_row(8, "x".into(), "y".into(), "z".into(), Some("plex".into()), 0, "c".into(), "u".into());
    assert_eq!(q.server_type, "plex");
    assert!(!q.is_active);
    let a = active_profile_from_row("http://h//", "me".into(), "pw".into(), "jellyfin".into());
    assert_eq!(a.url, "http://h");
    assert_eq!(a.password, "pw");
}

#[test]
fn first_profile_is_active_and_unknown_ids_are_refused() {
    assert!(new_profile_active(0));
    assert!(!new_profile_active(2));
    assert_eq!(check_profile_exists(1), Ok(()));
    assert_eq!(check_profile_exists(0), Err("Profile not found".to_string()));
}
