use naviarr::history::{affinity_key, genre_record, play_record, requested_rows};

#[test]
fn play_record_needs_artist_and_title() {
    let r = play_record("  Daft Punk ", " One More Time", Some("".to_string())).unwrap();
    assert_eq!(r.artist, "Daft Punk");
    assert_eq!(r.title, "One More Time");
    assert_eq!(r.cover_art_url, None);
    let r = play_record("A", "B", Some("http://c".to_string())).unwrap();
    assert_eq!(r.cover_art_url, Some("http://c".to_string()));
    assert!(play_record("  ", "Title", None).is_none());
    assert!(play_record("Artist", "", None).is_none());
}

#[test]
fn genre_record_needs_a_genre() {
    assert_eq!(
        genre_record(" House ", " Daft Punk "),
        Some(("House".to_string(), "Daft Punk".to_string()))
    );
    assert_eq!(genre_record("   ", "x"), None);
}

#[test]
fn affinity_keys_are_trimmed_lower_case() {
    assert_eq!(affinity_key("  The Beatles "), "the beatles");
}

#[test]
fn requested_rows_keeps_named_rows_in_order() {
    let requested = vec![" Rock".to_string(), "JAZZ ".to_string()];
    let rows = vec!["pop".to_string(), "jazz".to_string(), "rock".to_string(), "Rock".to_string()];
    assert_eq!(requested_rows(&requested, &rows, true), vec![1, 2]);
    let ids = vec![" s1 ".to_string()];
    let song_rows = vec!["s2".to_string(), "s1".to_string()];
    assert_eq!(requested_rows(&ids, &song_rows, false), vec![1]);
    assert_eq!(requested_rows(&vec![], &rows, true), Vec::<usize>::new());
}
