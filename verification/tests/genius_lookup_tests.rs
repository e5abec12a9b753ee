use naviarr::lyric_sources::{genius_lookup, genius_synced};

#[test]
fn synced_lines_are_stamped_by_word_share() {
    let plain = "Hello world\nChorus\nfoo bar baz\n[Bridge]";
    assert_eq!(
        genius_synced(plain, 10_000),
        Some("[00:00.000]Hello world\n[00:04.000]foo bar baz".to_string())
    );
    assert_eq!(genius_synced("[Intro]\nVerse 1", 10_000), None);
}

#[test]
fn first_page_that_cleans_wins() {
    let pages = vec![None, Some("   \n  ".to_string()), Some("  la la  \nla".to_string()), Some("other".to_string())];
    let r = genius_lookup(&pages, None).unwrap();
    assert_eq!(r.plain_lyrics, Some("la la\nla".to_string()));
    assert_eq!(r.synced_lyrics, None);
    assert_eq!(r.provider, Some("Genius".to_string()));
    assert!(!r.instrumental && !r.cached);
    let r = genius_lookup(&pages, Some(3_000)).unwrap();
    assert_eq!(r.synced_lyrics, Some("[00:00.000]la la\n[00:02.000]la".to_string()));
    assert!(genius_lookup(&vec![None, Some("".to_string())], Some(1000)).is_none());
    assert!(genius_lookup(&vec![], None).is_none());
}
