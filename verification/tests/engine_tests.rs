use std::collections::HashMap;

use naviarr::disk_cache::{
    bytes_to_data_url, evict_if_needed, extension_for_content_type, CacheMetadata, DiskCache,
};
use naviarr::playback::{frame_range, LoadedTrack, PlaybackState};

fn t(id: &str, frames: usize) -> LoadedTrack<u8> {
    LoadedTrack { id: id.to_string(), frames, payload: 0 }
}

#[test]
fn load_play_pause_seek() {
    let mut s: PlaybackState<u8> = PlaybackState::new(2, 48000);
    assert_eq!(s.output_config(), (2, 48000));
    assert!(!s.seek(10));
    s.play();
    assert!(!s.is_playing());
    s.load(t("a", 100), false);
    assert!(!s.is_playing());
    s.play();
    assert!(s.is_playing());
    assert!(s.seek(500));
    assert_eq!(s.current_frame_index(), 100);
    assert!(s.seek(40));
    s.advance_frame();
    assert_eq!(s.current_frame_index(), 41);
    s.pause();
    assert!(!s.is_playing());
    s.stop();
    assert!(s.current_track().is_none());
    assert_eq!(s.current_frame_index(), 0);
}

#[test]
fn gapless_advance_and_crossfade() {
    let mut s: PlaybackState<u8> = PlaybackState::new(2, 44100);
    s.load(t("a", 10), true);
    assert!(!s.advance_to_preloaded_if_ready());
    s.store_preloaded(t("b", 20));
    assert_eq!(s.preloaded_id().map(|x| x.as_str()), Some("b"));
    assert!(s.take_preloaded("zzz").is_none());
    assert!(s.advance_to_preloaded_if_ready());
    assert_eq!(s.current_track().unwrap().id, "b");
    assert_eq!(s.gapless_advanced_to().map(|x| x.as_str()), Some("b"));
    assert!(s.is_playing());
    s.seek(5);
    s.load_with_crossfade(t("c", 30), true, 2);
    let (out, from, elapsed, dur) = s.crossfade_position().unwrap();
    assert_eq!((out.id.as_str(), from, dur, elapsed), ("b", 5, 2, 0));
    s.advance_frame();
    assert!(s.crossfade_position().is_some());
    s.advance_frame();
    assert!(s.crossfade_position().is_none());
    assert!(s.gapless_advanced_to().is_none());
}

#[test]
fn track_cache_keeps_three_newest() {
    let mut s: PlaybackState<u8> = PlaybackState::new(2, 44100);
    s.cache_track(t("a", 1));
    s.cache_track(t("b", 2));
    s.cache_track(t("c", 3));
    s.cache_track(t("a", 4));
    assert_eq!(s.get_cached("a").unwrap().frames, 4);
    s.cache_track(t("d", 5));
    assert!(s.get_cached("b").is_none());
    assert!(s.get_cached("c").is_some());
    s.clear_cached_tracks();
    assert!(s.get_cached("a").is_none());
}

#[test]
fn cache_paths_and_types() {
    let c = DiskCache::new("/cache/audio".to_string());
    let (key, meta) = c.paths_for("song-1");
    assert_eq!(key, "e0f62b0b35978ca8176bb6425d105e26");
    assert_eq!(meta, format!("/cache/audio/{key}.json"));
    assert_eq!(c.data_path_for("k", "mp3"), "/cache/audio/k.mp3");
    assert_eq!(c.resolve_data_path("k", " flac ", true), "/cache/audio/k.flac");
    assert_eq!(c.resolve_data_path("k", " flac ", false), "/cache/audio/k.bin");
    assert_eq!(c.resolve_data_path("k", "  ", true), "/cache/audio/k.bin");
    assert_eq!(extension_for_content_type("Audio/MPEG; charset=x"), "mp3");
    assert_eq!(extension_for_content_type("image/jpg"), "jpg");
    assert_eq!(extension_for_content_type("text/html"), "bin");
    assert_eq!(bytes_to_data_url(" image/png ", b"\x89PNG"), "data:image/png;base64,iVBORw==");
    assert_eq!(bytes_to_data_url("", b""), "data:application/octet-stream;base64,");
}

#[test]
fn eviction_takes_least_recently_used_first() {
    let entries = vec![(40u64, 300u128), (30, 100), (50, 200), (10, 100)];
    assert_eq!(evict_if_needed(&entries, 100), vec![1]);
    assert_eq!(evict_if_needed(&entries, 95), vec![1, 3]);
    assert_eq!(evict_if_needed(&entries, 130), Vec::<usize>::new());
    assert_eq!(evict_if_needed(&entries, 0), vec![1, 3, 2, 0]);
}

#[test]
fn frame_range_inside_buffer_only() {
    assert_eq!(frame_range(0, 2, 10), Some((0, 2)));
    assert_eq!(frame_range(4, 2, 10), Some((8, 10)));
    assert_eq!(frame_range(5, 2, 10), None);
    assert_eq!(frame_range(usize::MAX, 2, 10), None);
    assert_eq!(frame_range(3, 0, 0), Some((0, 0)));
}

#[test]
fn written_entry_is_read_back_from_its_file() {
    let cache = DiskCache::new("/tmp/cache".to_string());
    for ct in ["image/PNG; charset=x", "audio/flac", "text/plain", ""] {
        let ext = extension_for_content_type(ct);
        let written = cache.data_path_for("k1", &ext);
        assert_eq!(cache.resolve_data_path("k1", &ext, true), written);
    }
    assert_eq!(cache.resolve_data_path("k1", "png", false), "/tmp/cache/k1.bin");
    assert_eq!(cache.resolve_data_path("k1", " ", true), "/tmp/cache/k1.bin");
}

#[test]
fn end_of_track_and_clear() {
    let mut s: PlaybackState<u8> = PlaybackState::new(2, 48000);
    s.load(t("a", 5), true);
    assert!(s.is_playing());
    assert!(!s.is_ended());
    s.mark_ended();
    assert!(s.is_ended());
    assert!(!s.is_playing());
    s.play();
    assert!(s.is_playing() && !s.is_ended());
    s.clear_playing();
    assert!(!s.is_playing());
}

#[test]
fn recaching_refreshes_recency() {
    let mut s: PlaybackState<u8> = PlaybackState::new(2, 48000);
    for id in ["a", "b", "c", "a", "d"] {
        s.cache_track(t(id, 1));
    }
    assert!(s.get_cached("b").is_none());
    assert!(s.get_cached("a").is_some());
    assert!(s.get_cached("c").is_some());
    assert!(s.get_cached("d").is_some());
}

#[test]
fn crossfade_progresses_frame_by_frame() {
    let mut s: PlaybackState<u8> = PlaybackState::new(2, 44100);
    s.load(t("a", 100), true);
    s.seek(7);
    s.load_with_crossfade(t("b", 100), true, 4);
    for m in 0..4usize {
        assert_eq!(s.current_frame_index(), m);
        let (out, from, elapsed, dur) = s.crossfade_position().unwrap();
        assert_eq!((out.id.as_str(), from, elapsed, dur), ("a", 7, m, 4));
        s.advance_frame();
    }
    assert_eq!(s.current_frame_index(), 4);
    assert!(s.crossfade_position().is_none());
    s.advance_frame();
    assert!(s.crossfade_position().is_none());
}

#[test]
fn read_after_write_gives_back_bytes_and_type() {
    let cache = DiskCache::new("/var/cache/app".to_string());
    let mut data: HashMap<String, Vec<u8>> = HashMap::new();
    let mut metas: HashMap<String, CacheMetadata> = HashMap::new();
    data.insert("/var/cache/app/song-1.bin".to_string(), vec![9, 9]);
    let bytes = vec![1u8, 2, 3, 4];
    let (_, meta_path) = cache.paths_for("song-1");
    let m = CacheMetadata::written("song-1", "audio", "http://x/s", "audio/flac", bytes.len() as u64, 1000);
    data.insert(cache.data_path_for("song-1", &m.file_extension), bytes.clone());
    metas.insert(meta_path.clone(), m);
    let m = metas.remove(&meta_path).unwrap();
    let preferred = cache.preferred_data_path("song-1", &m.file_extension).unwrap();
    let path = cache.resolve_data_path("song-1", &m.file_extension, data.contains_key(&preferred));
    assert_eq!(path, "/var/cache/app/song-1.flac");
    let read = data.get(&path).unwrap().clone();
    assert_eq!(read, bytes);
    assert_eq!(m.content_type, "audio/flac");
    let t = m.touched(read.len() as u64, 2000);
    assert_eq!((t.size_bytes, t.cached_at_unix_ms, t.last_accessed_unix_ms), (4, 1000, 2000));
    assert!(meta_path.ends_with(".json"));
}
