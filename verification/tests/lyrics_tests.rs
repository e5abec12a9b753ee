use naviarr::genius;
use naviarr::genius::lyric_lines;
use naviarr::lyrics::{
    build_genius_url_candidates, cache_key, clean_plain_lyrics, normalize_album, normalize_artist,
    normalize_title, normalize_whitespace, slugify_genius_part,
};

#[test]
fn whitespace_and_artists() {
    assert_eq!(normalize_whitespace("  a \t b\n\nc  "), "a b c");
    assert_eq!(normalize_whitespace("   "), "");
    assert_eq!(normalize_artist("Simon & Garfunkel"), "simon");
    assert_eq!(normalize_artist("  AC/DC ; Other"), "ac/dc");
    assert_eq!(normalize_artist(", x"), "");
}

#[test]
fn titles_lose_edition_tags() {
    assert_eq!(normalize_title("Song (Remastered 2011)"), "song");
    assert_eq!(normalize_title("Song [Live at Wembley] Extra"), "song extra");
    assert_eq!(normalize_title("Song (Acoustic)"), "song (acoustic)");
    assert_eq!(normalize_title("Song feat. Someone"), "song someone");
    assert_eq!(normalize_title("Song - Remastered"), "song");
    assert_eq!(normalize_title("Open (deluxe"), "open");
    assert_eq!(normalize_album("Album (Deluxe Edition)"), "album");
}

#[test]
fn plain_lyrics_are_cleaned() {
    assert_eq!(clean_plain_lyrics("  \n line one  \nline two \t\n\n "), Some("line one\nline two".to_string()));
    assert_eq!(clean_plain_lyrics(" \n\t "), None);
}

#[test]
fn cache_keys() {
    assert_eq!(cache_key("A & B", "Song (Live)", "", 215), "a|song||215");
    assert_eq!(cache_key("X", "Y", "Z (Mono)", -1), "x|y|z|-1");
}

#[test]
fn genius_candidates() {
    assert_eq!(slugify_genius_part("Don't Stop Me Now"), "dont-stop-me-now");
    assert_eq!(slugify_genius_part("AC/DC"), "ac-dc");
    assert_eq!(
        build_genius_url_candidates("Simon & Garfunkel", "Bridge Over Troubled Water"),
        vec!["https://genius.com/simon-and-garfunkel-bridge-over-troubled-water-lyrics".to_string()]
    );
    assert_eq!(
        build_genius_url_candidates("Nick Cave", "Red Right Hand and More"),
        vec![
            "https://genius.com/nick-cave-red-right-hand-and-more-lyrics".to_string(),
            "https://genius.com/nick-cave-red-right-hand-more-lyrics".to_string(),
        ]
    );
    assert!(build_genius_url_candidates("", "x").is_empty());
}

#[test]
fn lines_to_time() {
    let (lines, counts) = lyric_lines("[Verse 1]\n  Hello there world \n\nChorus\nVerses of love\nbye").unwrap();
    assert_eq!(
        lines,
        vec!["Hello there world".to_string(), "Verses of love".to_string(), "bye".to_string()]
    );
    assert_eq!(counts, vec![3, 3, 1]);
    let (l2, c2) = lyric_lines("intro-duction line\n[a]b\n").unwrap();
    assert_eq!(l2, vec!["[a]b".to_string()]);
    assert_eq!(c2, vec![1]);
}

#[test]
fn plain_genius_slugs() {
    assert_eq!(genius::slugify_genius_part("  Guns N' Roses! "), "guns-n-roses");
    assert_eq!(genius::slugify_genius_part("Song (Live)"), "song-live");
    assert_eq!(
        genius::build_genius_url_candidates("Simon & Garfunkel", "Cecilia"),
        vec!["https://genius.com/simon-and-garfunkel-cecilia-lyrics".to_string()]
    );
    assert_eq!(
        genius::build_genius_url_candidates("A", "Rock and Roll"),
        vec![
            "https://genius.com/a-rock-and-roll-lyrics".to_string(),
            "https://genius.com/a-rock-roll-lyrics".to_string(),
        ]
    );
}

fn is_slug(s: &str) -> bool {
    s.chars().all(|c| c.is_ascii_lowercase() || c.is_ascii_digit() || c == '-')
        && !s.starts_with('-')
        && !s.ends_with('-')
        && !s.contains("--")
}

#[test]
fn slugs_are_lower_case_with_single_inner_dashes() {
    for input in ["ÉCOLE Kelvin \u{212A} & Ünïcode.Name", "--A//B::C--", "  Beyoncé (Live) feat. JAY-Z ", "ΣΊΣΥΦΟΣ 1999"] {
        let a = slugify_genius_part(input);
        let b = naviarr::genius::slugify_genius_part(input);
        assert!(is_slug(&a), "{a}");
        assert!(is_slug(&b), "{b}");
    }
}
