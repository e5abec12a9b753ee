use naviarr::jellyfin::{j_audio_format, j_bitrate_kbps};
use naviarr::library::{
    cover_art_or_id, fill_album_fields, format_from_content_type, optional_string, optional_u32,
    song_audio_format, AlbumFields,
};
use naviarr::subsonic::{album_list_type, child_format, AlbumListKind};

#[test]
fn optional_string_trims_and_drops_blank() {
    assert_eq!(optional_string(Some("  flac ")), Some("flac".to_string()));
    assert_eq!(optional_string(Some("   ")), None);
    assert_eq!(optional_string(Some("")), None);
    assert_eq!(optional_string(None), None);
}

#[test]
fn content_type_gives_format_after_last_slash() {
    assert_eq!(format_from_content_type("audio/flac"), Some("flac".to_string()));
    assert_eq!(format_from_content_type("audio/x/mpeg "), Some("mpeg".to_string()));
    assert_eq!(format_from_content_type("opus"), Some("opus".to_string()));
    assert_eq!(format_from_content_type("audio/"), None);
    assert_eq!(format_from_content_type(""), None);
}

#[test]
fn audio_format_prefers_transcoded_then_suffix_then_content_type() {
    assert_eq!(
        song_audio_format(Some("mp3"), Some("flac"), Some("audio/flac")),
        Some("mp3".to_string())
    );
    assert_eq!(
        song_audio_format(Some(" "), Some("flac"), Some("audio/ogg")),
        Some("flac".to_string())
    );
    assert_eq!(song_audio_format(None, None, Some("audio/ogg")), Some("ogg".to_string()));
    assert_eq!(song_audio_format(None, None, Some("audio/")), None);
    assert_eq!(song_audio_format(None, None, None), None);
}

#[test]
fn optional_u32_keeps_positive_fitting_values() {
    assert_eq!(optional_u32(Some(320)), Some(320));
    assert_eq!(optional_u32(Some(0)), None);
    assert_eq!(optional_u32(Some(5_000_000_000)), None);
    assert_eq!(optional_u32(None), None);
}

#[test]
fn child_format_takes_raw_suffixes_first() {
    let some = |x: &str| Some(x.to_string());
    assert_eq!(child_format(some("mp3"), some("flac"), None), some("mp3"));
    assert_eq!(child_format(None, some(""), some("audio/ogg")), some(""));
    assert_eq!(child_format(None, None, some("audio/ogg")), some("ogg"));
    assert_eq!(child_format(None, None, some("audio/ ")), None);
    assert_eq!(child_format(None, None, None), None);
}

#[test]
fn album_list_type_defaults_to_newest() {
    assert_eq!(album_list_type("recent"), AlbumListKind::Recent);
    assert_eq!(album_list_type("frequent"), AlbumListKind::Frequent);
    assert_eq!(album_list_type("highest"), AlbumListKind::Highest);
    assert_eq!(album_list_type("random"), AlbumListKind::Random);
    assert_eq!(album_list_type("newest"), AlbumListKind::Newest);
    assert_eq!(album_list_type("whatever"), AlbumListKind::Newest);
}

#[test]
fn jellyfin_format_and_bitrate_fall_back_to_media_source() {
    assert_eq!(j_audio_format(Some(" flac "), Some("mp3")), Some("flac".to_string()));
    assert_eq!(j_audio_format(None, Some("mp3")), Some("mp3".to_string()));
    assert_eq!(j_audio_format(Some(" "), Some("mp3")), None);
    assert_eq!(j_audio_format(None, None), None);
    assert_eq!(j_bitrate_kbps(Some(320_000), Some(128_000)), Some(320));
    assert_eq!(j_bitrate_kbps(None, Some(128_999)), Some(128));
    assert_eq!(j_bitrate_kbps(Some(999), Some(128_000)), None);
    assert_eq!(j_bitrate_kbps(None, None), None);
}

#[test]
fn album_page_tracks_inherit_missing_fields() {
    let own = AlbumFields { album: "".into(), album_id: "a9".into(), cover_art: "".into() };
    let (f, inherited) = fill_album_fields(own, "Discovery", "al-1", "cov-1");
    assert_eq!(f.album, "Discovery");
    assert_eq!(f.album_id, "a9");
    assert_eq!(f.cover_art, "cov-1");
    assert!(inherited);
    let own = AlbumFields { album: "X".into(), album_id: "".into(), cover_art: "c".into() };
    let (f, inherited) = fill_album_fields(own, "Discovery", "al-1", "cov-1");
    assert_eq!((f.album.as_str(), f.album_id.as_str(), f.cover_art.as_str()), ("X", "al-1", "c"));
    assert!(!inherited);
}

#[test]
fn cover_art_defaults_to_id() {
    assert_eq!(cover_art_or_id(Some("c1".to_string()), "id1"), "c1");
    assert_eq!(cover_art_or_id(None, "id1"), "id1");
}
